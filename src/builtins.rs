use vstd::prelude::*;
use crate::error::EvalError;
use crate::location::{Location, copy_loc};
use crate::object::{Builtin, Kind, Object, Term, kind_of, loc_of, terms_of};

verus! {

pub open spec fn is_comparison(op: Builtin) -> bool {
    match op {
        Builtin::Add | Builtin::Sub | Builtin::Mul | Builtin::Div | Builtin::Rem => false,
        _ => true,
    }
}

/// The fewest operands an operator takes.
pub open spec fn min_operands(op: Builtin) -> nat {
    match op {
        Builtin::Add | Builtin::Sub | Builtin::Mul => 1,
        _ => 2,
    }
}

pub open spec fn is_number(t: Term) -> bool {
    t is Integer || t is Float
}

/// The index of the first operand from `i` on that is not a number.
pub open spec fn first_non_number(args: Seq<Term>, i: int) -> Option<int>
    decreases args.len() - i,
{
    if i < 0 || i >= args.len() {
        None
    } else if !is_number(args[i]) {
        Some(i)
    } else {
        first_non_number(args, i + 1)
    }
}

pub open spec fn has_float(args: Seq<Term>) -> bool {
    exists|i: int| 0 <= i < args.len() && args[i] is Float
}

/// Whether a number is zero: the integer 0, or a floating-point zero of either sign.
pub open spec fn is_zero(t: Term) -> bool {
    (t is Integer && t->Integer_value == 0) || (t is Float && (t->Float_bits == 0 || t->Float_bits == 0x8000_0000_0000_0000))
}

/// Whether an operand after the first is zero.
pub open spec fn has_zero_divisor(args: Seq<Term>) -> bool {
    exists|i: int| 1 <= i < args.len() && is_zero(args[i])
}

/// The integer values of operands that are all integers.
pub open spec fn ints(args: Seq<Term>) -> Seq<i128> {
    Seq::new(args.len(), |i: int| args[i]->Integer_value)
}

pub open spec fn fits(x: int) -> bool {
    i128::MIN <= x <= i128::MAX
}

pub open spec fn abs(x: int) -> int {
    if x < 0 { -x } else { x }
}

/// Division rounded toward zero.
pub open spec fn trunc_div(a: int, b: int) -> int {
    if (a < 0) == (b < 0) { abs(a) / abs(b) } else { -(abs(a) / abs(b)) }
}

/// The remainder of division rounded toward zero: it takes the sign of `a`.
pub open spec fn trunc_rem(a: int, b: int) -> int {
    if a < 0 { -(abs(a) % abs(b)) } else { abs(a) % abs(b) }
}

/// One step of an arithmetic fold.
pub open spec fn step(op: Builtin, a: i128, b: i128, loc: Option<Location>) -> Result<i128, EvalError> {
    let r: int = match op {
        Builtin::Add => a + b,
        Builtin::Sub => a - b,
        Builtin::Mul => a * b,
        Builtin::Div => trunc_div(a as int, b as int),
        _ => trunc_rem(a as int, b as int),
    };
    if (op is Div || op is Rem) && b == 0 {
        Err(EvalError::DivisionByZero { loc })
    } else if fits(r) {
        Ok(r as i128)
    } else {
        Err(EvalError::IntegerOverflow { loc })
    }
}

/// The left-to-right fold of `op` over `xs`, failing at the first step that fails.
pub open spec fn fold(op: Builtin, xs: Seq<i128>, loc: Option<Location>) -> Result<i128, EvalError>
    decreases xs.len(),
{
    if xs.len() <= 1 {
        Ok(xs[0])
    } else {
        match fold(op, xs.drop_last(), loc) {
            Ok(a) => step(op, a, xs.last(), loc),
            Err(e) => Err(e),
        }
    }
}

pub open spec fn holds(op: Builtin, a: i128, b: i128) -> bool {
    match op {
        Builtin::Gt => a > b,
        Builtin::Lt => a < b,
        Builtin::Eq => a == b,
        Builtin::Ge => a >= b,
        Builtin::Le => a <= b,
        _ => a != b,
    }
}

/// Whether the relation holds between every adjacent pair.
pub open spec fn chain(op: Builtin, xs: Seq<i128>) -> bool {
    forall|i: int| 0 <= i < xs.len() - 1 ==> holds(op, #[trigger] xs[i], xs[i + 1])
}

/// What a builtin operator returns on the given operands; `loc` is that of the call.
pub open spec fn builtin_result(op: Builtin, args: Seq<Term>, loc: Option<Location>) -> Result<Term, EvalError> {
    if args.len() < min_operands(op) {
        Err(EvalError::ArityMismatch { expected: min_operands(op) as usize, got: args.len() as usize, loc })
    } else if first_non_number(args, 0) is Some {
        let t = args[first_non_number(args, 0)->0];
        Err(EvalError::TypeMismatch { expected: Kind::Number, found: kind_of(t), loc: loc_of(t) })
    } else if has_float(args) {
        if (op is Div || op is Rem) && has_zero_divisor(args) {
            Err(EvalError::DivisionByZero { loc })
        } else {
            Err(EvalError::FloatArithmetic { loc })
        }
    } else if is_comparison(op) {
        Ok(Term::Bool { value: chain(op, ints(args)), loc: None })
    } else if args.len() == 1 && !(op is Sub) {
        Ok(args[0])
    } else if args.len() == 1 {
        let x = args[0]->Integer_value;
        if fits(-x) {
            Ok(Term::Integer { value: (-x) as i128, loc: None })
        } else {
            Err(EvalError::IntegerOverflow { loc })
        }
    } else {
        match fold(op, ints(args), loc) {
            Ok(v) => Ok(Term::Integer { value: v, loc: None }),
            Err(e) => Err(e),
        }
    }
}

pub open spec fn result_term(r: Result<Object, EvalError>) -> Result<Term, EvalError> {
    match r {
        Ok(o) => Ok(o@),
        Err(e) => Err(e),
    }
}

pub proof fn lemma_all_numbers(args: Seq<Term>, i: int, j: int)
    requires
        0 <= i <= j < args.len(),
        first_non_number(args, i) is None,
    ensures
        is_number(args[j]),
    decreases j - i,
{
    if i < j {
        lemma_all_numbers(args, i + 1, j);
    }
}

pub proof fn lemma_fold_err_stays(op: Builtin, xs: Seq<i128>, k: int, loc: Option<Location>)
    requires
        1 <= k <= xs.len(),
        fold(op, xs.subrange(0, k), loc) is Err,
    ensures
        fold(op, xs, loc) == fold(op, xs.subrange(0, k), loc),
    decreases xs.len() - k,
{
    if k < xs.len() {
        assert(xs.subrange(0, k + 1).drop_last() =~= xs.subrange(0, k));
        lemma_fold_err_stays(op, xs, k + 1, loc);
    } else {
        assert(xs.subrange(0, k) =~= xs);
    }
}

fn step_exec(op: Builtin, a: i128, b: i128, loc: &Option<Location>) -> (r: Result<i128, EvalError>)
    requires
        !is_comparison(op),
    ensures
        r == step(op, a, b, *loc),
{
    let r = match op {
        Builtin::Add => a.checked_add(b),
        Builtin::Sub => a.checked_sub(b),
        Builtin::Mul => a.checked_mul(b),
        Builtin::Div => {
            if b == 0 {
                return Err(EvalError::DivisionByZero { loc: copy_loc(loc) });
            }
            a.checked_div(b)
        },
        _ => {
            if b == 0 {
                return Err(EvalError::DivisionByZero { loc: copy_loc(loc) });
            }
            if b == -1 {
                assert(abs(a as int) % 1 == 0) by (nonlinear_arith);
                Some(0i128)
            } else {
                a.checked_rem(b)
            }
        },
    };
    match r {
        Some(v) => Ok(v),
        None => Err(EvalError::IntegerOverflow { loc: copy_loc(loc) }),
    }
}

fn has_zero_divisor_exec(args: &Vec<Object>) -> (r: bool)
    ensures
        r == has_zero_divisor(terms_of(args@)),
{
    let ghost ts = terms_of(args@);
    let n = args.len();
    let mut i: usize = 1;
    while i < n
        invariant
            n == args@.len(),
            ts == terms_of(args@),
            1 <= i || n == 0,
            forall|j: int| 1 <= j < i ==> !is_zero(#[trigger] ts[j]),
        decreases n - i,
    {
        assert(ts[i as int] == args@[i as int]@);
        let zero = match &args[i] {
            Object::Integer { value, .. } => *value == 0,
            Object::Float { bits, .. } => *bits == 0 || *bits == 0x8000_0000_0000_0000u64,
            _ => false,
        };
        if zero {
            return true;
        }
        i = i + 1;
    }
    false
}

fn holds_exec(op: Builtin, a: i128, b: i128) -> (r: bool)
    ensures
        r == holds(op, a, b),
{
    match op {
        Builtin::Gt => a > b,
        Builtin::Lt => a < b,
        Builtin::Eq => a == b,
        Builtin::Ge => a >= b,
        Builtin::Le => a <= b,
        _ => a != b,
    }
}

/// Applies a builtin operator to evaluated operands. `loc` is the location of the call.
pub fn eval_builtin_func(op: Builtin, args: &Vec<Object>, loc: &Option<Location>) -> (r: Result<Object, EvalError>)
    ensures
        result_term(r) == builtin_result(op, terms_of(args@), *loc),
{
    let ghost ts = terms_of(args@);
    let n = args.len();
    if n < 2 && (n == 0 || !(matches!(op, Builtin::Add) || matches!(op, Builtin::Sub) || matches!(op, Builtin::Mul))) {
        let m: usize = if matches!(op, Builtin::Add) || matches!(op, Builtin::Sub) || matches!(op, Builtin::Mul) { 1 } else { 2 };
        return Err(EvalError::ArityMismatch { expected: m, got: n, loc: copy_loc(loc) });
    }
    assert(ts.len() == n && n >= min_operands(op));
    let mut i: usize = 0;
    while i < n
        invariant
            n >= min_operands(op),
            n == args@.len(),
            ts == terms_of(args@),
            i <= n,
            first_non_number(ts, 0) == first_non_number(ts, i as int),
        decreases n - i,
    {
        assert(ts[i as int] == args@[i as int]@);
        match &args[i] {
            Object::Integer { .. } | Object::Float { .. } => {},
            other => {
                assert(!is_number(ts[i as int]));
                assert(first_non_number(ts, i as int) == Some(i as int));
                return Err(EvalError::TypeMismatch { expected: Kind::Number, found: other.kind(), loc: other.loc_copy() });
            },
        }
        i = i + 1;
    }
    let mut xs: Vec<i128> = Vec::new();
    i = 0;
    while i < n
        invariant
            n == args@.len(),
            ts == terms_of(args@),
            i <= n,
            first_non_number(ts, 0) is None,
            n >= min_operands(op),
            forall|j: int| 0 <= j < i ==> !(ts[j] is Float),
            xs@ == ints(ts).subrange(0, i as int),
        decreases n - i,
    {
        assert(ts[i as int] == args@[i as int]@);
        match &args[i] {
            Object::Integer { value, .. } => {
                xs.push(*value);
            },
            _ => {
                proof {
                    lemma_all_numbers(ts, 0, i as int);
                }
                assert(ts[i as int] is Float);
                assert(has_float(ts));
                if (matches!(op, Builtin::Div) || matches!(op, Builtin::Rem)) && has_zero_divisor_exec(args) {
                    return Err(EvalError::DivisionByZero { loc: copy_loc(loc) });
                }
                return Err(EvalError::FloatArithmetic { loc: copy_loc(loc) });
            },
        }
        i = i + 1;
        assert(xs@ =~= ints(ts).subrange(0, i as int));
    }
    assert(xs@ =~= ints(ts));
    assert(!has_float(ts));
    match op {
        Builtin::Add | Builtin::Sub | Builtin::Mul | Builtin::Div | Builtin::Rem => {
            if n == 1 {
                if matches!(op, Builtin::Sub) {
                    let x = xs[0];
                    if x == i128::MIN {
                        return Err(EvalError::IntegerOverflow { loc: copy_loc(loc) });
                    }
                    return Ok(Object::Integer { value: -x, loc: None });
                }
                return Ok(args[0].copy());
            }
            let mut acc: i128 = xs[0];
            let mut k: usize = 1;
            assert(xs@.subrange(0, 1) =~= seq![xs@[0]]);
            while k < n
                invariant
                    n == xs@.len(),
                    xs@ == ints(ts),
                    ts == terms_of(args@),
                    n == ts.len(),
                    n >= min_operands(op),
                    first_non_number(ts, 0) is None,
                    !has_float(ts),
                    n >= 2,
                    1 <= k <= n,
                    !is_comparison(op),
                    fold(op, xs@.subrange(0, k as int), *loc) == Ok::<i128, EvalError>(acc),
                decreases n - k,
            {
                let r = step_exec(op, acc, xs[k], loc);
                assert(xs@.subrange(0, k + 1).drop_last() =~= xs@.subrange(0, k as int));
                match r {
                    Ok(v) => {
                        acc = v;
                    },
                    Err(e) => {
                        assert(xs@.subrange(0, k + 1).last() == xs@[k as int]);
                        assert(fold(op, xs@.subrange(0, k + 1), *loc) == Err::<i128, EvalError>(e));
                        proof {
                            lemma_fold_err_stays(op, xs@, k as int + 1, *loc);
                        }
                        return Err(e);
                    },
                }
                k = k + 1;
            }
            assert(xs@.subrange(0, n as int) =~= xs@);
            Ok(Object::Integer { value: acc, loc: None })
        },
        _ => {
            let mut k: usize = 1;
            while k < n
                invariant
                    n == xs@.len(),
                    xs@ == ints(ts),
                    ts == terms_of(args@),
                    n == ts.len(),
                    n >= min_operands(op),
                    first_non_number(ts, 0) is None,
                    !has_float(ts),
                    n >= 2,
                    1 <= k <= n,
                    is_comparison(op),
                    forall|j: int| 0 <= j < k - 1 ==> holds(op, #[trigger] xs@[j], xs@[j + 1]),
                decreases n - k,
            {
                if !holds_exec(op, xs[k - 1], xs[k]) {
                    assert(!holds(op, ints(ts)[k - 1], ints(ts)[k - 1 + 1]));
                    assert(!chain(op, ints(ts)));
                    return Ok(Object::Bool { value: false, loc: None });
                }
                k = k + 1;
            }
            Ok(Object::Bool { value: true, loc: None })
        },
    }
}

} // verus!
