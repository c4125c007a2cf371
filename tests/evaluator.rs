use std::rc::Rc;

use lisp_eval::environment::Environment;
use lisp_eval::error::{EvalError, SpecialForm};
use lisp_eval::evaluator::{eval, eval_obj};
use lisp_eval::location::Location;
use lisp_eval::object::{Kind, Object};

fn ival(v: i128) -> Object {
    Object::Integer { value: v, loc: None }
}

fn boolean(v: bool) -> Object {
    Object::Bool { value: v, loc: None }
}

fn sym(s: &str) -> Object {
    Object::Symbol { value: s.to_string(), loc: None }
}

fn list(items: Vec<Object>) -> Object {
    Object::List { value: Rc::new(items), loc: None }
}

fn run(env: &mut Environment, o: Object) -> Result<Object, EvalError> {
    eval(o, env)
}

#[test]
fn literals_evaluate_to_themselves() {
    let mut env = Environment::new();
    let loc = Some(Location::new("t.lisp".to_string(), 3, 7));
    let lits = vec![
        Object::Integer { value: 42, loc: loc.clone() },
        Object::Float { bits: 1.5f64.to_bits(), loc: None },
        Object::Bool { value: false, loc: loc.clone() },
        Object::Str { value: "hi".to_string(), loc: None },
        Object::Void { loc: None },
    ];
    for l in lits {
        assert_eq!(run(&mut env, l.clone()), Ok(l));
    }
}

#[test]
fn define_then_lookup() {
    let mut env = Environment::new();
    assert_eq!(run(&mut env, list(vec![sym("define"), sym("x"), ival(10)])), Ok(Object::Void { loc: None }));
    assert_eq!(run(&mut env, sym("x")), Ok(ival(10)));
    assert_eq!(env.get(0, "x"), Some(ival(10)));
}

#[test]
fn if_selects_branch() {
    let mut env = Environment::new();
    assert_eq!(run(&mut env, list(vec![sym("if"), boolean(true), ival(1), ival(2)])), Ok(ival(1)));
    assert_eq!(run(&mut env, list(vec![sym("if"), boolean(false), ival(1), ival(2)])), Ok(ival(2)));
    assert_eq!(run(&mut env, list(vec![sym("if"), boolean(false), ival(1)])), Ok(Object::Void { loc: None }));
    let cond = list(vec![sym("<"), ival(1), ival(2)]);
    assert_eq!(run(&mut env, list(vec![sym("if"), cond, ival(1), ival(2)])), Ok(ival(1)));
}

#[test]
fn if_needs_boolean_condition() {
    let mut env = Environment::new();
    let r = run(&mut env, list(vec![sym("if"), ival(1), ival(2), ival(3)]));
    assert_eq!(r, Err(EvalError::TypeMismatch { expected: Kind::Bool, found: Kind::Integer, loc: None }));
    let r = run(&mut env, list(vec![sym("if"), boolean(true)]));
    assert_eq!(r, Err(EvalError::MalformedSpecialForm { form: SpecialForm::If, loc: None }));
}

#[test]
fn closure_sees_later_definition() {
    let mut env = Environment::new();
    run(&mut env, list(vec![sym("define"), sym("y"), ival(5)])).unwrap();
    let lam = list(vec![sym("lambda"), list(vec![]), sym("y")]);
    run(&mut env, list(vec![sym("define"), sym("f"), lam])).unwrap();
    run(&mut env, list(vec![sym("define"), sym("y"), ival(6)])).unwrap();
    assert_eq!(run(&mut env, list(vec![sym("f")])), Ok(ival(6)));
}

#[test]
fn arity_mismatch() {
    let mut env = Environment::new();
    let lam = list(vec![sym("lambda"), list(vec![sym("a"), sym("b")]), list(vec![sym("+"), sym("a"), sym("b")])]);
    run(&mut env, list(vec![sym("define"), sym("add"), lam])).unwrap();
    assert_eq!(run(&mut env, list(vec![sym("add"), ival(1), ival(2)])), Ok(ival(3)));
    assert_eq!(
        run(&mut env, list(vec![sym("add"), ival(1)])),
        Err(EvalError::ArityMismatch { expected: 2, got: 1, loc: None })
    );
    assert_eq!(
        run(&mut env, list(vec![sym("add"), ival(1), ival(2), ival(3)])),
        Err(EvalError::ArityMismatch { expected: 2, got: 3, loc: None })
    );
}

#[test]
fn variadic_tail_collects_remaining_arguments() {
    let mut env = Environment::new();
    let lam = list(vec![sym("lambda"), list(vec![sym("a"), sym("&rest"), sym("more")]), sym("more")]);
    run(&mut env, list(vec![sym("define"), sym("tail"), lam])).unwrap();
    assert_eq!(run(&mut env, list(vec![sym("tail"), ival(1), ival(2), ival(3)])), Ok(list(vec![ival(2), ival(3)])));
    assert_eq!(run(&mut env, list(vec![sym("tail"), ival(1)])), Ok(list(vec![])));
    assert_eq!(
        run(&mut env, list(vec![sym("tail")])),
        Err(EvalError::ArityMismatch { expected: 1, got: 0, loc: None })
    );
}

#[test]
fn malformed_parameter_lists() {
    let mut env = Environment::new();
    let r = run(&mut env, list(vec![sym("lambda"), list(vec![ival(1)]), ival(1)]));
    assert_eq!(r, Err(EvalError::ExpectedSymbol { found: Kind::Integer, loc: None }));
    let r = run(&mut env, list(vec![sym("lambda"), list(vec![sym("&rest"), sym("a"), sym("b")]), ival(1)]));
    assert_eq!(r, Err(EvalError::MalformedSpecialForm { form: SpecialForm::Lambda, loc: None }));
    let r = run(&mut env, list(vec![sym("lambda")]));
    assert_eq!(r, Err(EvalError::MalformedSpecialForm { form: SpecialForm::Lambda, loc: None }));
}

#[test]
fn chained_comparison() {
    let mut env = Environment::new();
    assert_eq!(run(&mut env, list(vec![sym("<"), ival(1), ival(2), ival(3)])), Ok(boolean(true)));
    assert_eq!(run(&mut env, list(vec![sym("<"), ival(1), ival(3), ival(2)])), Ok(boolean(false)));
    assert_eq!(run(&mut env, list(vec![sym(">="), ival(3), ival(3), ival(1)])), Ok(boolean(true)));
    assert_eq!(run(&mut env, list(vec![sym("/="), ival(1), ival(2), ival(1)])), Ok(boolean(true)));
    assert_eq!(run(&mut env, list(vec![sym("="), ival(2), ival(2), ival(3)])), Ok(boolean(false)));
    assert_eq!(
        run(&mut env, list(vec![sym("<"), ival(1)])),
        Err(EvalError::ArityMismatch { expected: 2, got: 1, loc: None })
    );
}

#[test]
fn division_by_zero() {
    let mut env = Environment::new();
    assert_eq!(run(&mut env, list(vec![sym("/"), ival(1), ival(0)])), Err(EvalError::DivisionByZero { loc: None }));
    assert_eq!(run(&mut env, list(vec![sym("%"), ival(1), ival(0)])), Err(EvalError::DivisionByZero { loc: None }));
    assert_eq!(
        run(&mut env, list(vec![sym("/"), ival(8), ival(2), ival(0)])),
        Err(EvalError::DivisionByZero { loc: None })
    );
    let one = Object::Float { bits: 1.0f64.to_bits(), loc: None };
    let neg_zero = Object::Float { bits: (-0.0f64).to_bits(), loc: None };
    assert_eq!(
        run(&mut env, list(vec![sym("/"), one.clone(), ival(0)])),
        Err(EvalError::DivisionByZero { loc: None })
    );
    assert_eq!(
        run(&mut env, list(vec![sym("%"), ival(1), neg_zero])),
        Err(EvalError::DivisionByZero { loc: None })
    );
    assert_eq!(
        run(&mut env, list(vec![sym("/"), one, ival(2)])),
        Err(EvalError::FloatArithmetic { loc: None })
    );
}

#[test]
fn arithmetic_folds_left_to_right() {
    let mut env = Environment::new();
    assert_eq!(run(&mut env, list(vec![sym("+"), ival(1), ival(2), ival(3)])), Ok(ival(6)));
    assert_eq!(run(&mut env, list(vec![sym("-"), ival(10), ival(3), ival(2)])), Ok(ival(5)));
    assert_eq!(run(&mut env, list(vec![sym("-"), ival(5)])), Ok(ival(-5)));
    assert_eq!(run(&mut env, list(vec![sym("*"), ival(2), ival(3), ival(4)])), Ok(ival(24)));
    assert_eq!(run(&mut env, list(vec![sym("/"), ival(7), ival(2)])), Ok(ival(3)));
    assert_eq!(run(&mut env, list(vec![sym("/"), ival(-7), ival(2)])), Ok(ival(-3)));
    assert_eq!(run(&mut env, list(vec![sym("%"), ival(-7), ival(2)])), Ok(ival(-1)));
    assert_eq!(run(&mut env, list(vec![sym("%"), ival(7), ival(-2)])), Ok(ival(1)));
    assert_eq!(run(&mut env, list(vec![sym("%"), ival(i128::MIN), ival(-1)])), Ok(ival(0)));
    let five = Object::Integer { value: 5, loc: Some(Location::new("f".to_string(), 1, 4)) };
    assert_eq!(run(&mut env, list(vec![sym("+"), five.clone()])), Ok(five));
}

#[test]
fn arithmetic_errors() {
    let mut env = Environment::new();
    assert_eq!(
        run(&mut env, list(vec![sym("/"), ival(1)])),
        Err(EvalError::ArityMismatch { expected: 2, got: 1, loc: None })
    );
    assert_eq!(
        run(&mut env, list(vec![sym("+")])),
        Err(EvalError::ArityMismatch { expected: 1, got: 0, loc: None })
    );
    assert_eq!(
        run(&mut env, list(vec![sym("+"), ival(1), Object::Str { value: "a".to_string(), loc: None }])),
        Err(EvalError::TypeMismatch { expected: Kind::Number, found: Kind::Str, loc: None })
    );
    assert_eq!(
        run(&mut env, list(vec![sym("+"), ival(i128::MAX), ival(1)])),
        Err(EvalError::IntegerOverflow { loc: None })
    );
    assert_eq!(
        run(&mut env, list(vec![sym("-"), ival(i128::MIN)])),
        Err(EvalError::IntegerOverflow { loc: None })
    );
    assert_eq!(
        run(&mut env, list(vec![sym("/"), ival(i128::MIN), ival(-1)])),
        Err(EvalError::IntegerOverflow { loc: None })
    );
    let half = Object::Float { bits: 0.5f64.to_bits(), loc: None };
    assert_eq!(
        run(&mut env, list(vec![sym("+"), ival(1), half])),
        Err(EvalError::FloatArithmetic { loc: None })
    );
}

#[test]
fn unbound_symbol() {
    let mut env = Environment::new();
    let loc = Some(Location::new("t.lisp".to_string(), 2, 1));
    let r = run(&mut env, Object::Symbol { value: "nope".to_string(), loc: loc.clone() });
    assert_eq!(r, Err(EvalError::UnboundSymbol { name: "nope".to_string(), loc }));
}

#[test]
fn parameter_shadows_only_during_call() {
    let mut env = Environment::new();
    run(&mut env, list(vec![sym("define"), sym("x"), ival(1)])).unwrap();
    let lam = list(vec![sym("lambda"), list(vec![sym("x")]), sym("x")]);
    run(&mut env, list(vec![sym("define"), sym("id"), lam])).unwrap();
    assert_eq!(run(&mut env, list(vec![sym("id"), ival(99)])), Ok(ival(99)));
    assert_eq!(run(&mut env, sym("x")), Ok(ival(1)));
}

#[test]
fn define_inside_a_call_stays_local() {
    let mut env = Environment::new();
    run(&mut env, list(vec![sym("define"), sym("z"), ival(1)])).unwrap();
    let body = list(vec![sym("define"), sym("z"), ival(2)]);
    let lam = list(vec![sym("lambda"), list(vec![]), body, sym("z")]);
    run(&mut env, list(vec![sym("define"), sym("g"), lam])).unwrap();
    assert_eq!(run(&mut env, list(vec![sym("g")])), Ok(ival(2)));
    assert_eq!(run(&mut env, sym("z")), Ok(ival(1)));
}

#[test]
fn define_errors() {
    let mut env = Environment::new();
    assert_eq!(
        run(&mut env, list(vec![sym("define"), ival(1), ival(2)])),
        Err(EvalError::ExpectedSymbol { found: Kind::Integer, loc: None })
    );
    assert_eq!(run(&mut env, list(vec![sym("define"), sym("x")])), Err(EvalError::MissingBinding { loc: None }));
    assert_eq!(
        run(&mut env, list(vec![sym("define")])),
        Err(EvalError::MalformedSpecialForm { form: SpecialForm::Define, loc: None })
    );
}

#[test]
fn calls_of_non_closures_fail() {
    let mut env = Environment::new();
    let loc = Some(Location::new("t.lisp".to_string(), 1, 2));
    let callee = Object::Integer { value: 1, loc: loc.clone() };
    assert_eq!(run(&mut env, list(vec![callee, ival(2)])), Err(EvalError::NotCallable { found: Kind::Integer, loc }));
    // the callee is checked before any argument is evaluated
    let r = run(&mut env, list(vec![ival(1), sym("nope")]));
    assert_eq!(r, Err(EvalError::NotCallable { found: Kind::Integer, loc: None }));
}

#[test]
fn empty_list_is_void() {
    let mut env = Environment::new();
    assert_eq!(run(&mut env, list(vec![])), Ok(Object::Void { loc: None }));
}

#[test]
fn recursion_and_depth_limit() {
    let mut env = Environment::new();
    // (define fact (lambda (n) (if (< n 2) 1 (* n (fact (- n 1))))))
    let rec = list(vec![sym("fact"), list(vec![sym("-"), sym("n"), ival(1)])]);
    let body = list(vec![
        sym("if"),
        list(vec![sym("<"), sym("n"), ival(2)]),
        ival(1),
        list(vec![sym("*"), sym("n"), rec]),
    ]);
    let lam = list(vec![sym("lambda"), list(vec![sym("n")]), body]);
    run(&mut env, list(vec![sym("define"), sym("fact"), lam])).unwrap();
    assert_eq!(run(&mut env, list(vec![sym("fact"), ival(10)])), Ok(ival(3628800)));
    // (define loop (lambda () (loop)))
    let lam = list(vec![sym("lambda"), list(vec![]), list(vec![sym("loop")])]);
    run(&mut env, list(vec![sym("define"), sym("loop"), lam])).unwrap();
    assert_eq!(run(&mut env, list(vec![sym("loop")])), Err(EvalError::DepthExceeded { loc: None }));
}

#[test]
fn evaluation_in_a_child_scope() {
    let mut env = Environment::new();
    env.set(0, "a", ival(1));
    let child = env.new_scope(0);
    env.set(child, "b", ival(2));
    assert_eq!(eval_obj(&sym("a"), &mut env, child, 10), Ok(ival(1)));
    assert_eq!(eval_obj(&sym("b"), &mut env, child, 10), Ok(ival(2)));
    assert_eq!(env.get(0, "b"), None);
    assert!(Environment::is_builtin(&env.get(child, "+").unwrap()));
    assert!(!Environment::is_builtin(&ival(1)));
}

#[test]
fn location_accessors() {
    let mut l = Location::new("a.lisp".to_string(), 4, 9);
    assert_eq!(l.filename(), "a.lisp");
    assert_eq!(l.rol(), 4);
    assert_eq!(l.col(), 9);
    l.set_filename("b.lisp".to_string());
    assert_eq!(l.filename(), "b.lisp");
    let o = Object::Integer { value: 1, loc: Some(l.clone()) };
    assert_eq!(o.loc(), Some(&l));
    assert_eq!(o.kind(), Kind::Integer);
}

#[test]
fn closure_parameters() {
    let mut env = Environment::new();
    let lam = list(vec![sym("lambda"), list(vec![sym("a"), sym("&rest"), sym("r")]), sym("a")]);
    let c = run(&mut env, lam).unwrap();
    let ps = match &c {
        Object::Lambda { value, .. } => value.params().unwrap(),
        other => panic!("expected a closure, got {:?}", other),
    };
    let seen: Vec<(String, bool)> = ps.iter().map(|p| (p.name.clone(), p.variadic)).collect();
    assert_eq!(seen, vec![("a".to_string(), false), ("r".to_string(), true)]);
    match env.get(0, "+") {
        Some(Object::Lambda { value, .. }) => assert!(value.params().is_none()),
        other => panic!("expected the builtin, got {:?}", other),
    }
}
