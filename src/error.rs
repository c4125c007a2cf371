use vstd::prelude::*;
use crate::location::Location;
use crate::object::Kind;

verus! {

/// The special forms, as named in errors.
#[derive(Debug, Clone, Copy, PartialEq, Eq, Structural)]
pub enum SpecialForm {
    Define,
    If,
    Lambda,
}

/// Why an evaluation failed, with the location of the expression at fault where one is known.
#[derive(Debug, Clone, PartialEq)]
pub enum EvalError {
    /// A symbol that no scope of the chain binds.
    UnboundSymbol { name: String, loc: Option<Location> },
    /// A name was expected, and a value of another kind found.
    ExpectedSymbol { found: Kind, loc: Option<Location> },
    /// `define` without an expression to bind.
    MissingBinding { loc: Option<Location> },
    /// An operand of the wrong kind.
    TypeMismatch { expected: Kind, found: Kind, loc: Option<Location> },
    /// A call with a number of arguments that the callee does not take.
    ArityMismatch { expected: usize, got: usize, loc: Option<Location> },
    /// A call of a value that is not a closure.
    NotCallable { found: Kind, loc: Option<Location> },
    /// Division or remainder by zero.
    DivisionByZero { loc: Option<Location> },
    /// A special form with the wrong shape.
    MalformedSpecialForm { form: SpecialForm, loc: Option<Location> },
    /// An integer result outside the 128-bit range.
    IntegerOverflow { loc: Option<Location> },
    /// An operator applied to a floating-point operand; this core computes on integers only.
    FloatArithmetic { loc: Option<Location> },
    /// Forms nested deeper than the evaluation depth allows.
    DepthExceeded { loc: Option<Location> },
}

} // verus!
