use vstd::prelude::*;
use crate::builtins::{builtin_result, eval_builtin_func, result_term};
use crate::environment::{Environment, Frame, bind, lookup};
use crate::error::{EvalError, SpecialForm};
use crate::location::{Location, copy_loc};
use std::rc::Rc;
use crate::object::{
    FunctionDefinition, Param, Kind, Object, Term, is_word, kind_of, loc_of, same_word, terms_of,
};

verus! {

/// How deeply forms may nest, calls included, in one evaluation by `eval`.
pub const MAX_DEPTH: u64 = 400;

/// Whether a parameter list ends in the variadic marker `&rest` and a name.
pub open spec fn has_rest(ps: Seq<Term>) -> bool {
    ps.len() >= 2 && is_word(ps[ps.len() - 2], "&rest"@)
}

/// The number of parameters before the variadic marker, if any.
pub open spec fn fixed_count(ps: Seq<Term>) -> nat {
    if has_rest(ps) { (ps.len() - 2) as nat } else { ps.len() }
}

/// The first fault of a parameter list from position `i` on: an item that is not a symbol,
/// or a variadic marker anywhere but just before the last name.
pub open spec fn param_error(ps: Seq<Term>, i: nat) -> Option<EvalError>
    decreases ps.len() - i,
{
    if i >= ps.len() {
        None
    } else if !(ps[i as int] is Symbol) {
        Some(EvalError::ExpectedSymbol { found: kind_of(ps[i as int]), loc: loc_of(ps[i as int]) })
    } else if is_word(ps[i as int], "&rest"@) && i + 2 != ps.len() {
        Some(EvalError::MalformedSpecialForm { form: SpecialForm::Lambda, loc: loc_of(ps[i as int]) })
    } else {
        param_error(ps, i + 1)
    }
}

/// The first `n` parameters bound to the first `n` arguments; a later name wins.
pub open spec fn bind_fixed(ps: Seq<Term>, args: Seq<Term>, n: nat) -> Map<Seq<char>, Term>
    decreases n,
{
    if n == 0 {
        Map::empty()
    } else {
        bind_fixed(ps, args, (n - 1) as nat).insert(ps[n - 1]->Symbol_value@, args[n - 1])
    }
}

/// The local bindings of a call: each fixed parameter bound to its argument, and the
/// variadic name, if declared, to the list of the remaining arguments.
pub open spec fn param_bindings(ps: Seq<Term>, args: Seq<Term>) -> Map<Seq<char>, Term> {
    let n = fixed_count(ps);
    if has_rest(ps) {
        bind_fixed(ps, args, n).insert(
            ps[ps.len() - 1]->Symbol_value@,
            Term::List { items: args.subrange(n as int, args.len() as int), loc: None },
        )
    } else {
        bind_fixed(ps, args, n)
    }
}

/// Whether `args` is a number of arguments that the parameter list takes.
pub open spec fn arity_ok(ps: Seq<Term>, n: nat) -> bool {
    if has_rest(ps) { n >= fixed_count(ps) } else { n == fixed_count(ps) }
}

/// The value of an expression in scope `sc` of `st`, and the scopes afterwards. Each
/// non-empty list form takes one unit of `f`; forms nested deeper than `f` fail.
pub open spec fn eval_term(f: nat, t: Term, st: Seq<Frame>, sc: nat) -> (Seq<Frame>, Result<Term, EvalError>)
    decreases f, 0nat, 0nat,
{
    match t {
        Term::Symbol { value, loc } => match lookup(st, sc, value@) {
            Some(v) => (st, Ok(v)),
            None => (st, Err(EvalError::UnboundSymbol { name: value, loc })),
        },
        Term::List { items, loc } => if items.len() == 0 {
            (st, Ok(Term::Void { loc: None }))
        } else if f == 0 {
            (st, Err(EvalError::DepthExceeded { loc }))
        } else {
            eval_form((f - 1) as nat, items, loc, st, sc)
        },
        _ => (st, Ok(t)),
    }
}

/// A non-empty list form: a special form, or a call.
pub open spec fn eval_form(f: nat, items: Seq<Term>, loc: Option<Location>, st: Seq<Frame>, sc: nat) -> (Seq<Frame>, Result<Term, EvalError>)
    decreases f, 4nat, 0nat,
{
    if is_word(items[0], "define"@) {
        eval_define_form(f, items, loc, st, sc)
    } else if is_word(items[0], "if"@) {
        eval_if_form(f, items, loc, st, sc)
    } else if is_word(items[0], "lambda"@) {
        (st, lambda_result(items, loc, sc))
    } else {
        eval_call_form(f, items, st, sc)
    }
}

/// `(define name expr)`.
pub open spec fn eval_define_form(f: nat, items: Seq<Term>, loc: Option<Location>, st: Seq<Frame>, sc: nat) -> (Seq<Frame>, Result<Term, EvalError>)
    decreases f, 3nat, 0nat,
{
    if items.len() < 2 {
        (st, Err(EvalError::MalformedSpecialForm { form: SpecialForm::Define, loc }))
    } else if !(items[1] is Symbol) {
        (st, Err(EvalError::ExpectedSymbol { found: kind_of(items[1]), loc: loc_of(items[1]) }))
    } else if items.len() < 3 {
        (st, Err(EvalError::MissingBinding { loc: loc_of(items[1]) }))
    } else if items.len() > 3 {
        (st, Err(EvalError::MalformedSpecialForm { form: SpecialForm::Define, loc }))
    } else {
        match eval_term(f, items[2], st, sc) {
            (st1, Ok(v)) => (bind(st1, sc, items[1]->Symbol_value@, v), Ok(Term::Void { loc: None })),
            (st1, Err(e)) => (st1, Err(e)),
        }
    }
}

/// `(if cond then)` and `(if cond then else)`.
pub open spec fn eval_if_form(f: nat, items: Seq<Term>, loc: Option<Location>, st: Seq<Frame>, sc: nat) -> (Seq<Frame>, Result<Term, EvalError>)
    decreases f, 3nat, 0nat,
{
    if items.len() < 3 || items.len() > 4 {
        (st, Err(EvalError::MalformedSpecialForm { form: SpecialForm::If, loc }))
    } else {
        match eval_term(f, items[1], st, sc) {
            (st1, Ok(c)) => match c {
                Term::Bool { value, .. } => if value {
                    eval_term(f, items[2], st1, sc)
                } else if items.len() == 4 {
                    eval_term(f, items[3], st1, sc)
                } else {
                    (st1, Ok(Term::Void { loc: None }))
                },
                _ => (st1, Err(EvalError::TypeMismatch { expected: Kind::Bool, found: kind_of(c), loc: loc_of(items[1]) })),
            },
            (st1, Err(e)) => (st1, Err(e)),
        }
    }
}

/// `(lambda (params...) body...)`: a closure over scope `sc`, holding the form itself.
pub open spec fn lambda_result(items: Seq<Term>, loc: Option<Location>, sc: nat) -> Result<Term, EvalError> {
    if items.len() < 2 || !(items[1] is List) {
        Err(EvalError::MalformedSpecialForm { form: SpecialForm::Lambda, loc })
    } else if param_error(items[1]->List_items, 0) is Some {
        Err(param_error(items[1]->List_items, 0)->0)
    } else {
        Ok(Term::Lambda { form: items, scope: sc, builtin: None, loc })
    }
}

/// A call: the callee, which must be a closure, then each argument from left to right, all
/// in scope `sc`.
pub open spec fn eval_call_form(f: nat, items: Seq<Term>, st: Seq<Frame>, sc: nat) -> (Seq<Frame>, Result<Term, EvalError>)
    decreases f, 3nat, 0nat,
{
    match eval_term(f, items[0], st, sc) {
        (st1, Ok(callee)) => if !(callee is Lambda) {
            (st1, Err(EvalError::NotCallable { found: kind_of(callee), loc: loc_of(items[0]) }))
        } else {
            match eval_args(f, items, 1, st1, sc, Seq::empty()) {
                (st2, Ok(args)) => apply(f, callee, args, loc_of(items[0]), st2),
                (st2, Err(e)) => (st2, Err(e)),
            }
        },
        (st1, Err(e)) => (st1, Err(e)),
    }
}

/// The values of `items` from position `i` on, after those already in `acc`.
pub open spec fn eval_args(f: nat, items: Seq<Term>, i: nat, st: Seq<Frame>, sc: nat, acc: Seq<Term>) -> (Seq<Frame>, Result<Seq<Term>, EvalError>)
    decreases f, 1nat, items.len() - i,
{
    if i >= items.len() {
        (st, Ok(acc))
    } else {
        match eval_term(f, items[i as int], st, sc) {
            (st1, Ok(v)) => eval_args(f, items, i + 1, st1, sc, acc.push(v)),
            (st1, Err(e)) => (st1, Err(e)),
        }
    }
}

/// Evaluates `items` from position `i` on in turn; the value is that of the last one
/// evaluated, or `last` where none is left.
pub open spec fn eval_body(f: nat, items: Seq<Term>, i: nat, st: Seq<Frame>, sc: nat, last: Term) -> (Seq<Frame>, Result<Term, EvalError>)
    decreases f, 1nat, items.len() - i,
{
    if i >= items.len() {
        (st, Ok(last))
    } else {
        match eval_term(f, items[i as int], st, sc) {
            (st1, Ok(v)) => eval_body(f, items, i + 1, st1, sc, v),
            (st1, Err(e)) => (st1, Err(e)),
        }
    }
}

/// Calls `callee` with evaluated arguments. A user closure runs its body in a new scope
/// whose parent is the scope the closure was built in.
pub open spec fn apply(f: nat, callee: Term, args: Seq<Term>, loc: Option<Location>, st: Seq<Frame>) -> (Seq<Frame>, Result<Term, EvalError>)
    decreases f, 2nat, 0nat,
{
    match callee {
        Term::Lambda { form, scope, builtin, .. } => if builtin is Some {
            (st, builtin_result(builtin->0, args, loc))
        } else if scope >= st.len() || form.len() < 2 || !(form[1] is List) || param_error(form[1]->List_items, 0) is Some {
            (st, Err(EvalError::NotCallable { found: Kind::Lambda, loc }))
        } else if !arity_ok(form[1]->List_items, args.len()) {
            (st, Err(EvalError::ArityMismatch { expected: fixed_count(form[1]->List_items) as usize, got: args.len() as usize, loc }))
        } else {
            eval_body(
                f,
                form,
                2,
                st.push(Frame { parent: Some(scope), vars: param_bindings(form[1]->List_items, args) }),
                st.len(),
                Term::Void { loc: None },
            )
        },
        _ => (st, Err(EvalError::NotCallable { found: kind_of(callee), loc })),
    }
}

/// Top-level forms from position `i` on, each evaluated in the root scope in turn, stopping
/// at the first that fails; the value is that of the last form, or `last` where none is left.
pub open spec fn run_forms(forms: Seq<Term>, i: nat, st: Seq<Frame>, last: Term) -> (Seq<Frame>, Result<Term, EvalError>)
    decreases forms.len() - i,
{
    if i >= forms.len() {
        (st, Ok(last))
    } else {
        match eval_term(MAX_DEPTH as nat, forms[i as int], st, 0) {
            (st1, Ok(v)) => run_forms(forms, i + 1, st1, v),
            (st1, Err(e)) => (st1, Err(e)),
        }
    }
}

proof fn lemma_items(o: Object)
    ensures
        o is List ==> o@->List_items == terms_of(o->List_value@),
        o is Lambda ==> o@->Lambda_form == terms_of(o->Lambda_value.form@),
{
    if o is List {
        assert(o@->List_items =~= terms_of(o->List_value@));
    }
    if o is Lambda {
        assert(o@->Lambda_form =~= terms_of(o->Lambda_value.form@));
    }
}

proof fn lemma_params_ok(ps: Seq<Term>, i: nat, j: int)
    requires
        i <= j < ps.len(),
        param_error(ps, i) is None,
    ensures
        ps[j] is Symbol,
        is_word(ps[j], "&rest"@) ==> j + 2 == ps.len(),
    decreases j - i,
{
    if i < j {
        lemma_params_ok(ps, i + 1, j);
    }
}

/// Evaluates `object` in the root scope of `env`.
pub fn eval(object: Object, env: &mut Environment) -> (r: Result<Object, EvalError>)
    requires
        old(env).wf(),
    ensures
        final(env).wf(),
        (final(env)@, result_term(r)) == eval_term(MAX_DEPTH as nat, object@, old(env)@, 0),
{
    proof {
        old(env).lemma_wf_view();
    }
    eval_obj(&object, env, 0, MAX_DEPTH)
}

/// Evaluates a program's top-level forms in the root scope of `env`, in order. Evaluation stops
/// at the first form that fails; what earlier forms defined stays. The value is that of the
/// last form, `Void` for no forms.
pub fn eval_program(forms: &Vec<Object>, env: &mut Environment) -> (r: Result<Object, EvalError>)
    requires
        old(env).wf(),
    ensures
        final(env).wf(),
        (final(env)@, result_term(r)) == run_forms(terms_of(forms@), 0, old(env)@, Term::Void { loc: None }),
{
    proof {
        old(env).lemma_wf_view();
    }
    let ghost fs = terms_of(forms@);
    let n = forms.len();
    let mut last = Object::Void { loc: None };
    let mut i: usize = 0;
    while i < n
        invariant
            env.wf(),
            env@.len() > 0,
            n == forms@.len(),
            fs == terms_of(forms@),
            i <= n,
            run_forms(fs, i as nat, env@, last@) == run_forms(fs, 0, old(env)@, Term::Void { loc: None }),
        decreases n - i,
    {
        assert(fs[i as int] == forms@[i as int]@);
        let ghost env_before = env@;
        match eval_obj(&forms[i], env, 0, MAX_DEPTH) {
            Ok(v) => {
                last = v;
            },
            Err(e) => {
                assert(run_forms(fs, i as nat, env_before, last@) == (env@, Err::<Term, EvalError>(e)));
                return Err(e);
            },
        }
        i = i + 1;
    }
    Ok(last)
}

/// Evaluates `obj` in scope `scope`, with forms nested at most `fuel` deep.
pub fn eval_obj(obj: &Object, env: &mut Environment, scope: usize, fuel: u64) -> (r: Result<Object, EvalError>)
    requires
        old(env).wf(),
        scope < old(env)@.len(),
    ensures
        final(env).wf(),
        old(env)@.len() <= final(env)@.len(),
        (final(env)@, result_term(r)) == eval_term(fuel as nat, obj@, old(env)@, scope as nat),
    decreases fuel, 0nat, 0nat,
{
    proof {
        lemma_items(*obj);
    }
    match obj {
        Object::Symbol { value, loc } => eval_symbol(value, loc, env, scope),
        Object::List { value, loc } => {
            if value.len() == 0 {
                return Ok(Object::Void { loc: None });
            }
            if fuel == 0 {
                return Err(EvalError::DepthExceeded { loc: copy_loc(loc) });
            }
            eval_list(value, loc, env, scope, fuel - 1)
        },
        _ => Ok(obj.copy()),
    }
}

/// The value that symbol `s` resolves to from scope `scope`.
pub fn eval_symbol(s: &String, loc: &Option<Location>, env: &Environment, scope: usize) -> (r: Result<Object, EvalError>)
    requires
        env.wf(),
    ensures
        result_term(r) == match lookup(env@, scope as nat, s@) {
            Some(v) => Ok(v),
            None => Err(EvalError::UnboundSymbol { name: *s, loc: *loc }),
        },
{
    match env.get(scope, s.as_str()) {
        Some(v) => Ok(v),
        None => Err(EvalError::UnboundSymbol { name: s.clone(), loc: copy_loc(loc) }),
    }
}

/// Evaluates the non-empty list form whose items are `list` and whose location is `loc`.
pub fn eval_list(list: &Rc<Vec<Object>>, loc: &Option<Location>, env: &mut Environment, scope: usize, fuel: u64) -> (r: Result<Object, EvalError>)
    requires
        old(env).wf(),
        scope < old(env)@.len(),
        list@.len() > 0,
    ensures
        final(env).wf(),
        old(env)@.len() <= final(env)@.len(),
        (final(env)@, result_term(r)) == eval_form(fuel as nat, terms_of(list@), *loc, old(env)@, scope as nat),
    decreases fuel, 4nat, 0nat,
{
    let ghost items = terms_of(list@);
    assert(items[0] == list@[0]@);
    match &list[0] {
        Object::Symbol { value, .. } => {
            if same_word(value.as_str(), "define") {
                return eval_define(list, loc, env, scope, fuel);
            }
            if same_word(value.as_str(), "if") {
                return eval_if(list, loc, env, scope, fuel);
            }
            if same_word(value.as_str(), "lambda") {
                return eval_function_definition(list, loc, scope);
            }
        },
        _ => {},
    }
    eval_function_call(list, env, scope, fuel)
}

/// `(define name expr)`: binds `name` in scope `scope` to the value of `expr`.
pub fn eval_define(list: &Vec<Object>, loc: &Option<Location>, env: &mut Environment, scope: usize, fuel: u64) -> (r: Result<Object, EvalError>)
    requires
        old(env).wf(),
        scope < old(env)@.len(),
    ensures
        final(env).wf(),
        old(env)@.len() <= final(env)@.len(),
        (final(env)@, result_term(r)) == eval_define_form(fuel as nat, terms_of(list@), *loc, old(env)@, scope as nat),
    decreases fuel, 3nat, 0nat,
{
    let ghost items = terms_of(list@);
    let n = list.len();
    if n < 2 {
        return Err(EvalError::MalformedSpecialForm { form: SpecialForm::Define, loc: copy_loc(loc) });
    }
    assert(items[1] == list@[1]@);
    match &list[1] {
        Object::Symbol { value: name, loc: name_loc } => {
            if n < 3 {
                return Err(EvalError::MissingBinding { loc: copy_loc(name_loc) });
            }
            if n > 3 {
                return Err(EvalError::MalformedSpecialForm { form: SpecialForm::Define, loc: copy_loc(loc) });
            }
            assert(items[2] == list@[2]@);
            match eval_obj(&list[2], env, scope, fuel) {
                Ok(v) => {
                    env.set(scope, name.as_str(), v);
                    Ok(Object::Void { loc: None })
                },
                Err(e) => Err(e),
            }
        },
        other => Err(EvalError::ExpectedSymbol { found: other.kind(), loc: other.loc_copy() }),
    }
}

/// `(if cond then [else])`: the condition must evaluate to a boolean.
pub fn eval_if(list: &Vec<Object>, loc: &Option<Location>, env: &mut Environment, scope: usize, fuel: u64) -> (r: Result<Object, EvalError>)
    requires
        old(env).wf(),
        scope < old(env)@.len(),
    ensures
        final(env).wf(),
        old(env)@.len() <= final(env)@.len(),
        (final(env)@, result_term(r)) == eval_if_form(fuel as nat, terms_of(list@), *loc, old(env)@, scope as nat),
    decreases fuel, 3nat, 0nat,
{
    let ghost items = terms_of(list@);
    let n = list.len();
    if n < 3 || n > 4 {
        return Err(EvalError::MalformedSpecialForm { form: SpecialForm::If, loc: copy_loc(loc) });
    }
    assert(items[1] == list@[1]@);
    assert(items[2] == list@[2]@);
    let c = match eval_obj(&list[1], env, scope, fuel) {
        Ok(c) => c,
        Err(e) => {
            return Err(e);
        },
    };
    match c {
        Object::Bool { value, .. } => {
            if value {
                eval_obj(&list[2], env, scope, fuel)
            } else if n == 4 {
                assert(items[3] == list@[3]@);
                eval_obj(&list[3], env, scope, fuel)
            } else {
                Ok(Object::Void { loc: None })
            }
        },
        _ => Err(EvalError::TypeMismatch { expected: Kind::Bool, found: c.kind(), loc: list[1].loc_copy() }),
    }
}

/// The parameters a list declares, in order, as name and whether it is the variadic one.
pub open spec fn declared_params(ps: Seq<Term>) -> Seq<(Seq<char>, bool)> {
    let n = fixed_count(ps);
    let fixed = Seq::new(n, |i: int| (ps[i]->Symbol_value@, false));
    if has_rest(ps) { fixed.push((ps[ps.len() - 1]->Symbol_value@, true)) } else { fixed }
}

pub open spec fn params_view(v: Seq<Param>) -> Seq<(Seq<char>, bool)> {
    Seq::new(v.len(), |i: int| (v[i].name@, v[i].variadic))
}

/// Whether a closure's form is that of a well-formed `lambda`.
pub open spec fn form_ok(form: Seq<Term>) -> bool {
    form.len() >= 2 && form[1] is List && param_error(form[1]->List_items, 0) is None
}

impl FunctionDefinition {
    /// The parameters of a user closure, in order, each with its location; `None` for a
    /// builtin operator or a closure whose form is not a well-formed `lambda`.
    pub fn params(&self) -> (r: Option<Vec<Param>>)
        ensures
            r is Some <==> (self.builtin is None && form_ok(terms_of(self.form@))),
            r matches Some(v) ==> params_view(v@) == declared_params(terms_of(self.form@)[1]->List_items),
    {
        if self.builtin.is_some() || self.form.len() < 2 {
            return None;
        }
        let ghost fts = terms_of(self.form@);
        assert(fts[1] == self.form@[1]@);
        proof {
            lemma_items(self.form@[1]);
        }
        let ps = match &self.form[1] {
            Object::List { value, .. } => value,
            _ => {
                return None;
            },
        };
        let ghost pts = terms_of(ps@);
        if check_params(ps).is_some() {
            return None;
        }
        let n = ps.len();
        let mut variadic = false;
        if n >= 2 {
            assert(pts[n - 2] == ps@[n - 2]@);
            if let Object::Symbol { value, .. } = &ps[n - 2] {
                variadic = same_word(value.as_str(), "&rest");
            }
        }
        let fixed: usize = if variadic { n - 2 } else { n };
        let mut out: Vec<Param> = Vec::new();
        let mut k: usize = 0;
        while k < fixed
            invariant
                fixed == fixed_count(pts),
                fixed <= n,
                n == ps@.len(),
                pts == terms_of(ps@),
                param_error(pts, 0) is None,
                k <= fixed,
                params_view(out@) == declared_params(pts).subrange(0, k as int),
            decreases fixed - k,
        {
            proof {
                lemma_params_ok(pts, 0, k as int);
            }
            assert(pts[k as int] == ps@[k as int]@);
            assert(declared_params(pts)[k as int] == (pts[k as int]->Symbol_value@, false));
            let ghost before = params_view(out@);
            if let Object::Symbol { value, loc } = &ps[k] {
                out.push(Param { name: value.clone(), variadic: false, loc: copy_loc(loc) });
                assert(params_view(out@) =~= before.push((pts[k as int]->Symbol_value@, false)));
            }
            k = k + 1;
            assert(params_view(out@) =~= declared_params(pts).subrange(0, k as int));
        }
        let ghost fixed_part = Seq::new(fixed as nat, |i: int| (pts[i]->Symbol_value@, false));
        assert(declared_params(pts).subrange(0, fixed as int) =~= fixed_part);
        if variadic {
            proof {
                lemma_params_ok(pts, 0, n - 1);
            }
            assert(pts[n - 1] == ps@[n - 1]@);
            let ghost before = params_view(out@);
            if let Object::Symbol { value, loc } = &ps[n - 1] {
                out.push(Param { name: value.clone(), variadic: true, loc: copy_loc(loc) });
                assert(params_view(out@) =~= before.push((pts[n - 1]->Symbol_value@, true)));
            }
        }
        assert(params_view(out@) =~= declared_params(pts));
        Some(out)
    }
}

/// The first fault of a parameter list, if any.
fn check_params(ps: &Vec<Object>) -> (r: Option<EvalError>)
    ensures
        r == param_error(terms_of(ps@), 0),
{
    let ghost ts = terms_of(ps@);
    let n = ps.len();
    let mut i: usize = 0;
    while i < n
        invariant
            n == ps@.len(),
            ts == terms_of(ps@),
            i <= n,
            param_error(ts, 0) == param_error(ts, i as nat),
        decreases n - i,
    {
        assert(ts[i as int] == ps@[i as int]@);
        match &ps[i] {
            Object::Symbol { value, loc } => {
                if same_word(value.as_str(), "&rest") && (n < 2 || i != n - 2) {
                    return Some(EvalError::MalformedSpecialForm { form: SpecialForm::Lambda, loc: copy_loc(loc) });
                }
            },
            other => {
                return Some(EvalError::ExpectedSymbol { found: other.kind(), loc: other.loc_copy() });
            },
        }
        i = i + 1;
    }
    None
}

/// `(lambda (params...) body...)`: a closure that holds this form and scope `scope`.
pub fn eval_function_definition(list: &Rc<Vec<Object>>, loc: &Option<Location>, scope: usize) -> (r: Result<Object, EvalError>)
    ensures
        result_term(r) == lambda_result(terms_of(list@), *loc, scope as nat),
{
    let ghost items = terms_of(list@);
    if list.len() < 2 {
        return Err(EvalError::MalformedSpecialForm { form: SpecialForm::Lambda, loc: copy_loc(loc) });
    }
    assert(items[1] == list@[1]@);
    proof {
        lemma_items(list@[1]);
    }
    match &list[1] {
        Object::List { value: ps, .. } => {
            match check_params(ps) {
                Some(e) => Err(e),
                None => {
                    let r = Object::Lambda {
                        value: FunctionDefinition { form: Rc::clone(list), scope, builtin: None },
                        loc: copy_loc(loc),
                    };
                    proof {
                        lemma_items(r);
                    }
                    Ok(r)
                },
            }
        },
        _ => Err(EvalError::MalformedSpecialForm { form: SpecialForm::Lambda, loc: copy_loc(loc) }),
    }
}

/// A call: evaluates the callee and then each argument, left to right, in scope `scope`.
pub fn eval_function_call(list: &Vec<Object>, env: &mut Environment, scope: usize, fuel: u64) -> (r: Result<Object, EvalError>)
    requires
        old(env).wf(),
        scope < old(env)@.len(),
        list@.len() > 0,
    ensures
        final(env).wf(),
        old(env)@.len() <= final(env)@.len(),
        (final(env)@, result_term(r)) == eval_call_form(fuel as nat, terms_of(list@), old(env)@, scope as nat),
    decreases fuel, 3nat, 0nat,
{
    let ghost items = terms_of(list@);
    let n = list.len();
    assert(items[0] == list@[0]@);
    let callee = match eval_obj(&list[0], env, scope, fuel) {
        Ok(c) => c,
        Err(e) => {
            return Err(e);
        },
    };
    if !matches!(callee, Object::Lambda { .. }) {
        return Err(EvalError::NotCallable { found: callee.kind(), loc: list[0].loc_copy() });
    }
    let ghost st1 = env@;
    let mut args: Vec<Object> = Vec::new();
    let mut i: usize = 1;
    assert(terms_of(args@) =~= Seq::<Term>::empty());
    while i < n
        invariant
            callee@ is Lambda,
            eval_call_form(fuel as nat, items, old(env)@, scope as nat) == (match eval_args(fuel as nat, items, 1, st1, scope as nat, Seq::empty()) {
                (st2, Ok(a)) => apply(fuel as nat, callee@, a, loc_of(items[0]), st2),
                (st2, Err(e)) => (st2, Err(e)),
            }),
            env.wf(),
            scope < env@.len(),
            old(env)@.len() <= env@.len(),
            n == list@.len(),
            items == terms_of(list@),
            1 <= i <= n,
            eval_args(fuel as nat, items, i as nat, env@, scope as nat, terms_of(args@))
                == eval_args(fuel as nat, items, 1, st1, scope as nat, Seq::empty()),
        decreases n - i,
    {
        assert(items[i as int] == list@[i as int]@);
        let ghost before = terms_of(args@);
        let ghost env_before = env@;
        match eval_obj(&list[i], env, scope, fuel) {
            Ok(v) => {
                args.push(v);
                assert(terms_of(args@) =~= before.push(v@));
            },
            Err(e) => {
                assert(eval_args(fuel as nat, items, i as nat, env_before, scope as nat, before) == (env@, Err::<Seq<Term>, EvalError>(e)));
                return Err(e);
            },
        }
        i = i + 1;
    }
    apply_closure(&callee, &args, &list[0].loc_copy(), env, fuel)
}

/// Calls `callee` with the evaluated `args`; `loc` is the location of the callee expression.
pub fn apply_closure(callee: &Object, args: &Vec<Object>, loc: &Option<Location>, env: &mut Environment, fuel: u64) -> (r: Result<Object, EvalError>)
    requires
        old(env).wf(),
    ensures
        final(env).wf(),
        old(env)@.len() <= final(env)@.len(),
        (final(env)@, result_term(r)) == apply(fuel as nat, callee@, terms_of(args@), *loc, old(env)@),
    decreases fuel, 2nat, 0nat,
{
    let ghost ats = terms_of(args@);
    proof {
        lemma_items(*callee);
    }
    let def = match callee {
        Object::Lambda { value, .. } => value,
        _ => {
            return Err(EvalError::NotCallable { found: callee.kind(), loc: copy_loc(loc) });
        },
    };
    if let Some(op) = def.builtin {
        return eval_builtin_func(op, args, loc);
    }
    let ghost fts = terms_of(def.form@);
    if def.scope >= env.len() || def.form.len() < 2 {
        return Err(EvalError::NotCallable { found: Kind::Lambda, loc: copy_loc(loc) });
    }
    assert(fts[1] == def.form@[1]@);
    proof {
        lemma_items(def.form@[1]);
    }
    let ps = match &def.form[1] {
        Object::List { value, .. } => value,
        _ => {
            return Err(EvalError::NotCallable { found: Kind::Lambda, loc: copy_loc(loc) });
        },
    };
    let ghost pts = terms_of(ps@);
    if check_params(ps).is_some() {
        return Err(EvalError::NotCallable { found: Kind::Lambda, loc: copy_loc(loc) });
    }
    let nps = ps.len();
    let mut variadic = false;
    if nps >= 2 {
        assert(pts[nps - 2] == ps@[nps - 2]@);
        match &ps[nps - 2] {
            Object::Symbol { value, .. } => {
                variadic = same_word(value.as_str(), "&rest");
            },
            _ => {},
        }
    }
    assert(variadic == has_rest(pts));
    let fixed: usize = if variadic { nps - 2 } else { nps };
    let nargs = args.len();
    if (variadic && nargs < fixed) || (!variadic && nargs != fixed) {
        return Err(EvalError::ArityMismatch { expected: fixed, got: nargs, loc: copy_loc(loc) });
    }
    let ghost st2 = env@;
    let frame = env.new_scope(def.scope);
    assert(bind_fixed(pts, ats, 0) =~= Map::<Seq<char>, Term>::empty());
    let mut k: usize = 0;
    while k < fixed
        invariant
            env.wf(),
            frame == st2.len(),
            fixed <= nps,
            fixed <= nargs,
            nps == ps@.len(),
            nargs == args@.len(),
            pts == terms_of(ps@),
            ats == terms_of(args@),
            param_error(pts, 0) is None,
            k <= fixed,
            env@ == st2.push(Frame { parent: Some(def.scope as nat), vars: bind_fixed(pts, ats, k as nat) }),
        decreases fixed - k,
    {
        proof {
            lemma_params_ok(pts, 0, k as int);
        }
        assert(pts[k as int] == ps@[k as int]@);
        assert(ats[k as int] == args@[k as int]@);
        match &ps[k] {
            Object::Symbol { value, .. } => {
                env.set(frame, value.as_str(), args[k].copy());
            },
            _ => {},
        }
        k = k + 1;
        assert(env@ =~= st2.push(Frame { parent: Some(def.scope as nat), vars: bind_fixed(pts, ats, k as nat) }));
    }
    if variadic {
        let mut rest: Vec<Object> = Vec::new();
        let mut j: usize = fixed;
        while j < nargs
            invariant
                fixed <= j <= nargs,
                nargs == args@.len(),
                ats == terms_of(args@),
                terms_of(rest@) == ats.subrange(fixed as int, j as int),
            decreases nargs - j,
        {
            let ghost before = terms_of(rest@);
            assert(ats[j as int] == args@[j as int]@);
            rest.push(args[j].copy());
            assert(terms_of(rest@) =~= before.push(ats[j as int]));
            j = j + 1;
            assert(ats.subrange(fixed as int, j as int) =~= before.push(ats[j - 1]));
        }
        let rest_obj = Object::List { value: Rc::new(rest), loc: None };
        proof {
            lemma_items(rest_obj);
            lemma_params_ok(pts, 0, nps - 1);
        }
        assert(pts[nps - 1] == ps@[nps - 1]@);
        match &ps[nps - 1] {
            Object::Symbol { value, .. } => {
                env.set(frame, value.as_str(), rest_obj);
            },
            _ => {},
        }
    }
    assert(env@ =~= st2.push(Frame { parent: Some(def.scope as nat), vars: param_bindings(pts, ats) }));
    let ghost st3 = env@;
    assert(apply(fuel as nat, callee@, ats, *loc, old(env)@)
        == eval_body(fuel as nat, fts, 2, st3, frame as nat, Term::Void { loc: None }));
    let form = &def.form;
    let nf = form.len();
    let mut last = Object::Void { loc: None };
    let mut j: usize = 2;
    while j < nf
        invariant
            env.wf(),
            frame < env@.len(),
            st2.len() <= env@.len(),
            st2 == old(env)@,
            ats == terms_of(args@),
            apply(fuel as nat, callee@, ats, *loc, old(env)@)
                == eval_body(fuel as nat, fts, 2, st3, frame as nat, Term::Void { loc: None }),
            nf == form@.len(),
            fts == terms_of(form@),
            2 <= j <= nf,
            eval_body(fuel as nat, fts, j as nat, env@, frame as nat, last@)
                == eval_body(fuel as nat, fts, 2, st3, frame as nat, Term::Void { loc: None }),
        decreases nf - j,
    {
        assert(fts[j as int] == form@[j as int]@);
        let ghost env_before = env@;
        match eval_obj(&form[j], env, frame, fuel) {
            Ok(v) => {
                last = v;
            },
            Err(e) => {
                assert(eval_body(fuel as nat, fts, j as nat, env_before, frame as nat, last@) == (env@, Err::<Term, EvalError>(e)));
                return Err(e);
            },
        }
        j = j + 1;
    }
    Ok(last)
}

} // verus!
