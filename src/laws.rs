use vstd::prelude::*;
use crate::builtins::{
    builtin_result, chain, first_non_number, fold, has_float, has_zero_divisor, ints, is_number, is_zero,
    lemma_fold_err_stays, step,
};
use crate::environment::{Frame, bind, builtin_bindings, lookup};
use crate::error::EvalError;
use crate::evaluator::{
    apply, arity_ok, bind_fixed, eval_args, eval_body, eval_call_form, eval_define_form, eval_form, eval_if_form,
    eval_term, fixed_count, has_rest, lambda_result, param_bindings, param_error,
};
use crate::location::Location;
use crate::object::{Builtin, Term, is_word, loc_of};

verus! {

/// Whether a term is an integer, float, boolean or string literal.
pub open spec fn is_literal(t: Term) -> bool {
    t is Integer || t is Float || t is Bool || t is Str
}

/// Adding a scope leaves what resolves from the existing scopes unchanged.
pub proof fn lemma_lookup_push(st: Seq<Frame>, fr: Frame, id: nat, name: Seq<char>)
    requires
        id < st.len(),
    ensures
        lookup(st.push(fr), id, name) == lookup(st, id, name),
    decreases id,
{
    assert(st.push(fr)[id as int] == st[id as int]);
    if let Some(p) = st[id as int].parent {
        if p < id {
            lemma_lookup_push(st, fr, p, name);
        }
    }
}

/// A literal evaluates to itself, in every scope of every environment.
pub proof fn law_literal_evaluates_to_itself(f: nat, t: Term, st: Seq<Frame>, sc: nat)
    requires
        is_literal(t),
    ensures
        eval_term(f, t, st, sc) == (st, Ok::<Term, EvalError>(t)),
{
}

/// `(define x v)` with a literal `v` returns `Void`; afterwards `x` resolves to `v` in that scope.
pub proof fn law_define_then_lookup(f: nat, g: nat, items: Seq<Term>, loc: Option<Location>, st: Seq<Frame>, sc: nat)
    requires
        sc < st.len(),
        items.len() == 3,
        is_word(items[0], "define"@),
        items[1] is Symbol,
        is_literal(items[2]),
    ensures
        eval_term(f + 1, Term::List { items, loc }, st, sc).1 == Ok::<Term, EvalError>(Term::Void { loc: None }),
        eval_term(g, items[1], eval_term(f + 1, Term::List { items, loc }, st, sc).0, sc).1 == Ok::<Term, EvalError>(items[2]),
{
    assert(eval_term(f + 1, Term::List { items, loc }, st, sc) == eval_form(f, items, loc, st, sc));
    assert(eval_form(f, items, loc, st, sc) == eval_define_form(f, items, loc, st, sc));
    assert(eval_term(f, items[2], st, sc) == (st, Ok::<Term, EvalError>(items[2])));
    let st1 = eval_term(f + 1, Term::List { items, loc }, st, sc).0;
    assert(st1 == bind(st, sc, items[1]->Symbol_value@, items[2]));
    assert(st1[sc as int].vars.contains_key(items[1]->Symbol_value@));
}

/// `if` evaluates its condition, then only the branch it selects; with a false condition
/// and no else branch the value is `Void`.
pub proof fn law_if_selects_branch(f: nat, items: Seq<Term>, loc: Option<Location>, st: Seq<Frame>, sc: nat)
    requires
        items.len() == 3 || items.len() == 4,
        is_word(items[0], "if"@),
        items[1] is Bool,
    ensures
        eval_term(f + 1, Term::List { items, loc }, st, sc) == if items[1]->Bool_value {
            eval_term(f, items[2], st, sc)
        } else if items.len() == 4 {
            eval_term(f, items[3], st, sc)
        } else {
            (st, Ok::<Term, EvalError>(Term::Void { loc: None }))
        },
{
    reveal_strlit("if");
    reveal_strlit("define");
    assert(!is_word(items[0], "define"@)) by {
        assert("if"@.len() != "define"@.len());
    }
    assert(eval_term(f + 1, Term::List { items, loc }, st, sc) == eval_form(f, items, loc, st, sc));
    assert(eval_form(f, items, loc, st, sc) == eval_if_form(f, items, loc, st, sc));
    assert(eval_term(f, items[1], st, sc) == (st, Ok::<Term, EvalError>(items[1])));
}

/// A closure reads its free names from the scope it was built in at the time of the call,
/// so a later `define` there is seen by it: one with no parameters whose body is the
/// symbol `y` returns whatever `y` resolves to in that scope when it is called.
pub proof fn law_closure_reads_current_binding(f: nat, c: Term, y: Seq<char>, loc: Option<Location>, st: Seq<Frame>)
    requires
        c is Lambda,
        c->Lambda_builtin is None,
        c->Lambda_scope < st.len(),
        c->Lambda_form.len() == 3,
        c->Lambda_form[1] is List,
        c->Lambda_form[1]->List_items.len() == 0,
        c->Lambda_form[2] is Symbol,
        c->Lambda_form[2]->Symbol_value@ == y,
        lookup(st, c->Lambda_scope, y) is Some,
    ensures
        apply(f, c, Seq::empty(), loc, st).1 == Ok::<Term, EvalError>(lookup(st, c->Lambda_scope, y)->0),
{
    let ps = c->Lambda_form[1]->List_items;
    assert(param_bindings(ps, Seq::empty()) =~= Map::empty());
    let fr = Frame { parent: Some(c->Lambda_scope), vars: param_bindings(ps, Seq::empty()) };
    lemma_lookup_push(st, fr, c->Lambda_scope, y);
}

/// A closure without a variadic tail called with another number of arguments than it has
/// parameters fails with `ArityMismatch`, and changes nothing.
pub proof fn law_arity_mismatch(f: nat, c: Term, args: Seq<Term>, loc: Option<Location>, st: Seq<Frame>)
    requires
        c is Lambda,
        c->Lambda_builtin is None,
        c->Lambda_scope < st.len(),
        c->Lambda_form.len() >= 2,
        c->Lambda_form[1] is List,
        param_error(c->Lambda_form[1]->List_items, 0) is None,
        !has_rest(c->Lambda_form[1]->List_items),
        args.len() != c->Lambda_form[1]->List_items.len(),
    ensures
        apply(f, c, args, loc, st) == (st, Err::<Term, EvalError>(EvalError::ArityMismatch {
            expected: c->Lambda_form[1]->List_items.len() as usize,
            got: args.len() as usize,
            loc,
        })),
{
}

proof fn lemma_all_integers(args: Seq<Term>, i: int)
    requires
        0 <= i,
        forall|j: int| 0 <= j < args.len() ==> #[trigger] args[j] is Integer,
    ensures
        first_non_number(args, i) is None,
        !has_float(args),
    decreases args.len() - i,
{
    if i < args.len() {
        lemma_all_integers(args, i + 1);
    }
}

/// A comparison of two or more integers is true exactly when the relation holds between
/// every adjacent pair.
pub proof fn law_chained_comparison(op: Builtin, args: Seq<Term>, loc: Option<Location>)
    requires
        !(op is Add || op is Sub || op is Mul || op is Div || op is Rem),
        args.len() >= 2,
        forall|j: int| 0 <= j < args.len() ==> #[trigger] args[j] is Integer,
    ensures
        builtin_result(op, args, loc) == Ok::<Term, EvalError>(Term::Bool { value: chain(op, ints(args)), loc: None }),
        op is Lt ==> (chain(op, ints(args)) <==> forall|i: int| 0 <= i < args.len() - 1
            ==> (#[trigger] args[i])->Integer_value < args[i + 1]->Integer_value),
{
    lemma_all_integers(args, 0);
    if op is Lt {
        let xs = ints(args);
        assert(chain(op, xs) ==> forall|i: int| 0 <= i < args.len() - 1
            ==> (#[trigger] args[i])->Integer_value < args[i + 1]->Integer_value) by {
            if chain(op, xs) {
                assert forall|i: int| 0 <= i < args.len() - 1 implies (#[trigger] args[i])->Integer_value < args[i + 1]->Integer_value by {
                    assert(xs[i] < xs[i + 1]);
                }
            }
        }
        assert((forall|i: int| 0 <= i < args.len() - 1 ==> (#[trigger] args[i])->Integer_value < args[i + 1]->Integer_value) ==> chain(op, xs)) by {
            if forall|i: int| 0 <= i < args.len() - 1 ==> (#[trigger] args[i])->Integer_value < args[i + 1]->Integer_value {
                assert forall|i: int| 0 <= i < xs.len() - 1 implies crate::builtins::holds(op, #[trigger] xs[i], xs[i + 1]) by {
                    assert(args[i]->Integer_value < args[i + 1]->Integer_value);
                }
            }
        }
    }
}

proof fn lemma_all_numbers_from(args: Seq<Term>, i: int)
    requires
        0 <= i,
        forall|j: int| 0 <= j < args.len() ==> is_number(#[trigger] args[j]),
    ensures
        first_non_number(args, i) is None,
    decreases args.len() - i,
{
    if i < args.len() {
        lemma_all_numbers_from(args, i + 1);
    }
}

/// Division or remainder whose second operand is zero, integer or floating-point, fails
/// with `DivisionByZero`: it never yields an infinity.
pub proof fn law_division_by_zero(op: Builtin, args: Seq<Term>, loc: Option<Location>)
    requires
        op is Div || op is Rem,
        args.len() >= 2,
        forall|j: int| 0 <= j < args.len() ==> is_number(#[trigger] args[j]),
        is_zero(args[1]),
    ensures
        builtin_result(op, args, loc) == Err::<Term, EvalError>(EvalError::DivisionByZero { loc }),
{
    lemma_all_numbers_from(args, 0);
    assert(has_zero_divisor(args));
    if !has_float(args) {
        assert forall|j: int| 0 <= j < args.len() implies #[trigger] args[j] is Integer by {
            assert(is_number(args[j]));
        }
        let xs = ints(args);
        assert(xs.subrange(0, 2).drop_last() =~= xs.subrange(0, 1));
        assert(fold(op, xs.subrange(0, 1), loc) == Ok::<i128, EvalError>(xs[0]));
        assert(fold(op, xs.subrange(0, 2), loc) == step(op, xs[0], xs[1], loc));
        lemma_fold_err_stays(op, xs, 2, loc);
    }
}

/// In a fresh root environment a name that is not an operator is unbound.
pub proof fn law_unbound_symbol(f: nat, name: String, loc: Option<Location>)
    requires
        !builtin_bindings().contains_key(name@),
    ensures
        eval_term(f, Term::Symbol { value: name, loc }, seq![Frame { parent: None, vars: builtin_bindings() }], 0)
            == (seq![Frame { parent: None, vars: builtin_bindings() }], Err::<Term, EvalError>(EvalError::UnboundSymbol { name, loc })),
{
}

/// A parameter shadows an outer binding of its name only inside the call: a closure of one
/// parameter `x` whose body is `x` returns its argument, and afterwards every name resolves
/// from every existing scope as it did before the call.
pub proof fn law_parameter_shadows_only_during_call(f: nat, c: Term, a: Term, loc: Option<Location>, st: Seq<Frame>)
    requires
        c is Lambda,
        c->Lambda_builtin is None,
        c->Lambda_scope < st.len(),
        c->Lambda_form.len() == 3,
        c->Lambda_form[1] is List,
        c->Lambda_form[1]->List_items.len() == 1,
        c->Lambda_form[1]->List_items[0] is Symbol,
        !is_word(c->Lambda_form[1]->List_items[0], "&rest"@),
        c->Lambda_form[2] is Symbol,
        c->Lambda_form[2]->Symbol_value@ == c->Lambda_form[1]->List_items[0]->Symbol_value@,
    ensures
        apply(f, c, seq![a], loc, st).1 == Ok::<Term, EvalError>(a),
        forall|id: nat, n: Seq<char>| id < st.len() ==> lookup(apply(f, c, seq![a], loc, st).0, id, n) == lookup(st, id, n),
{
    let ps = c->Lambda_form[1]->List_items;
    let x = ps[0]->Symbol_value@;
    assert(param_error(ps, 1) is None);
    assert(param_error(ps, 0) is None);
    assert(!has_rest(ps));
    assert(fixed_count(ps) == 1);
    let fr = Frame { parent: Some(c->Lambda_scope), vars: param_bindings(ps, seq![a]) };
    assert(bind_fixed(ps, seq![a], 0) == Map::<Seq<char>, Term>::empty());
    assert(bind_fixed(ps, seq![a], 1) == bind_fixed(ps, seq![a], 0).insert(x, a));
    assert(param_bindings(ps, seq![a]) =~= Map::<Seq<char>, Term>::empty().insert(x, a));
    assert(st.push(fr)[st.len() as int] == fr);
    assert(lookup(st.push(fr), st.len(), x) == Some(a));
    assert forall|id: nat, n: Seq<char>| id < st.len() implies lookup(apply(f, c, seq![a], loc, st).0, id, n) == lookup(st, id, n) by {
        lemma_lookup_push(st, fr, id, n);
    }
}

/// Whether `after` keeps every scope of `before` but scope `except` as it was, and has at
/// least as many scopes.
pub open spec fn keeps_scopes(before: Seq<Frame>, after: Seq<Frame>, except: int) -> bool {
    &&& before.len() <= after.len()
    &&& forall|id: int| 0 <= id < before.len() && id != except ==> #[trigger] after[id] == before[id]
}

proof fn lemma_keeps_trans(a: Seq<Frame>, b: Seq<Frame>, c: Seq<Frame>, except: int)
    requires
        keeps_scopes(a, b, except),
        keeps_scopes(b, c, except),
    ensures
        keeps_scopes(a, c, except),
{
    assert forall|id: int| 0 <= id < a.len() && id != except implies #[trigger] c[id] == a[id] by {
        assert(b[id] == a[id]);
    }
}

/// Evaluating an expression in scope `sc` changes no other existing scope: `define` writes
/// only into the scope it runs in, and each call runs in a scope of its own.
pub proof fn law_eval_changes_only_its_scope(f: nat, t: Term, st: Seq<Frame>, sc: nat)
    requires
        sc < st.len(),
    ensures
        keeps_scopes(st, eval_term(f, t, st, sc).0, sc as int),
    decreases f, 0nat, 0nat,
{
    match t {
        Term::List { items, loc } => {
            if items.len() > 0 && f > 0 {
                lemma_form_keeps((f - 1) as nat, items, loc, st, sc);
            }
        },
        _ => {},
    }
}

proof fn lemma_form_keeps(f: nat, items: Seq<Term>, loc: Option<Location>, st: Seq<Frame>, sc: nat)
    requires
        sc < st.len(),
        items.len() > 0,
    ensures
        keeps_scopes(st, eval_form(f, items, loc, st, sc).0, sc as int),
    decreases f, 4nat, 0nat,
{
    if is_word(items[0], "define"@) {
        if items.len() == 3 && items[1] is Symbol {
            law_eval_changes_only_its_scope(f, items[2], st, sc);
            let (st1, r) = eval_term(f, items[2], st, sc);
            if r is Ok {
                let st3 = bind(st1, sc, items[1]->Symbol_value@, r->Ok_0);
                assert(keeps_scopes(st1, st3, sc as int));
                lemma_keeps_trans(st, st1, st3, sc as int);
            }
        }
    } else if is_word(items[0], "if"@) {
        if 3 <= items.len() <= 4 {
            law_eval_changes_only_its_scope(f, items[1], st, sc);
            let st1 = eval_term(f, items[1], st, sc).0;
            law_eval_changes_only_its_scope(f, items[2], st1, sc);
            lemma_keeps_trans(st, st1, eval_term(f, items[2], st1, sc).0, sc as int);
            if items.len() == 4 {
                law_eval_changes_only_its_scope(f, items[3], st1, sc);
                lemma_keeps_trans(st, st1, eval_term(f, items[3], st1, sc).0, sc as int);
            }
        }
    } else if is_word(items[0], "lambda"@) {
    } else {
        law_eval_changes_only_its_scope(f, items[0], st, sc);
        let (st1, r1) = eval_term(f, items[0], st, sc);
        if r1 is Ok {
            lemma_args_keep(f, items, 1, st1, sc, Seq::empty());
            lemma_keeps_trans(st, st1, eval_args(f, items, 1, st1, sc, Seq::empty()).0, sc as int);
            let (st2, r2) = eval_args(f, items, 1, st1, sc, Seq::empty());
            if r2 is Ok {
                law_call_changes_no_existing_scope(f, r1->Ok_0, r2->Ok_0, loc_of(items[0]), st2);
                lemma_keeps_trans(st, st2, apply(f, r1->Ok_0, r2->Ok_0, loc_of(items[0]), st2).0, sc as int);
            }
        }
        assert(eval_form(f, items, loc, st, sc) == eval_call_form(f, items, st, sc));
    }
}

proof fn lemma_args_keep(f: nat, items: Seq<Term>, i: nat, st: Seq<Frame>, sc: nat, acc: Seq<Term>)
    requires
        sc < st.len(),
    ensures
        keeps_scopes(st, eval_args(f, items, i, st, sc, acc).0, sc as int),
    decreases f, 1nat, items.len() - i,
{
    if i < items.len() {
        law_eval_changes_only_its_scope(f, items[i as int], st, sc);
        let (st1, r) = eval_term(f, items[i as int], st, sc);
        if r is Ok {
            lemma_args_keep(f, items, i + 1, st1, sc, acc.push(r->Ok_0));
            lemma_keeps_trans(st, st1, eval_args(f, items, i + 1, st1, sc, acc.push(r->Ok_0)).0, sc as int);
        }
    }
}

proof fn lemma_body_keeps(f: nat, items: Seq<Term>, i: nat, st: Seq<Frame>, sc: nat, last: Term)
    requires
        sc < st.len(),
    ensures
        keeps_scopes(st, eval_body(f, items, i, st, sc, last).0, sc as int),
    decreases f, 1nat, items.len() - i,
{
    if i < items.len() {
        law_eval_changes_only_its_scope(f, items[i as int], st, sc);
        let (st1, r) = eval_term(f, items[i as int], st, sc);
        if r is Ok {
            lemma_body_keeps(f, items, i + 1, st1, sc, r->Ok_0);
            lemma_keeps_trans(st, st1, eval_body(f, items, i + 1, st1, sc, r->Ok_0).0, sc as int);
        }
    }
}

/// A call changes no existing scope at all: the callee's body runs in a new scope.
pub proof fn law_call_changes_no_existing_scope(f: nat, callee: Term, args: Seq<Term>, loc: Option<Location>, st: Seq<Frame>)
    ensures
        keeps_scopes(st, apply(f, callee, args, loc, st).0, -1),
    decreases f, 2nat, 0nat,
{
    match callee {
        Term::Lambda { form, scope, builtin, .. } => {
            if builtin is None && scope < st.len() && form.len() >= 2 && form[1] is List
                && param_error(form[1]->List_items, 0) is None && arity_ok(form[1]->List_items, args.len()) {
                let st2 = st.push(Frame { parent: Some(scope), vars: param_bindings(form[1]->List_items, args) });
                lemma_body_keeps(f, form, 2, st2, st.len(), Term::Void { loc: None });
                let fin = eval_body(f, form, 2, st2, st.len(), Term::Void { loc: None }).0;
                assert forall|id: int| 0 <= id < st.len() implies #[trigger] fin[id] == st[id] by {
                    assert(st2[id] == st[id]);
                }
            }
        },
        _ => {},
    }
}

} // verus!
