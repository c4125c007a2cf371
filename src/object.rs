use vstd::prelude::*;
use std::rc::Rc;
use crate::location::{Location, copy_loc};

verus! {

/// The primitive operators that every root environment binds.
#[derive(Debug, Clone, Copy, PartialEq, Eq, Structural)]
pub enum Builtin {
    Add,
    Sub,
    Mul,
    Div,
    Rem,
    Gt,
    Lt,
    Eq,
    Ge,
    Le,
    Ne,
}

/// The kind of a value, as reported in errors; `Number` stands for integers and floats together.
#[derive(Debug, Clone, Copy, PartialEq, Eq, Structural)]
pub enum Kind {
    Number,
    Void,
    Integer,
    Float,
    Bool,
    Str,
    Symbol,
    Lambda,
    List,
}

/// A formal parameter of a closure: its name, and whether it collects the remaining arguments.
#[derive(Debug, Clone, PartialEq)]
pub struct Param {
    pub name: String,
    pub variadic: bool,
    pub loc: Option<Location>,
}

/// A closure. `form` holds the items of the `lambda` expression that built it: the word
/// `lambda`, the parameter list, then the body. `scope` is the environment it was built in.
/// A builtin operator has `builtin` set and an empty `form`.
#[derive(Debug, Clone, PartialEq)]
pub struct FunctionDefinition {
    pub form: Rc<Vec<Object>>,
    pub scope: usize,
    pub builtin: Option<Builtin>,
}

/// A value, and an expression of the language: the tree that the reader produces is made
/// of these. A floating-point number is held as its IEEE-754 bit pattern.
#[derive(Debug, Clone, PartialEq)]
pub enum Object {
    Void { loc: Option<Location> },
    Integer { value: i128, loc: Option<Location> },
    Float { bits: u64, loc: Option<Location> },
    Bool { value: bool, loc: Option<Location> },
    Str { value: String, loc: Option<Location> },
    Symbol { value: String, loc: Option<Location> },
    Lambda { value: FunctionDefinition, loc: Option<Location> },
    List { value: Rc<Vec<Object>>, loc: Option<Location> },
}

/// The mathematical model of an `Object`: lists and closure forms become sequences.
pub enum Term {
    Void { loc: Option<Location> },
    Integer { value: i128, loc: Option<Location> },
    Float { bits: u64, loc: Option<Location> },
    Bool { value: bool, loc: Option<Location> },
    Str { value: String, loc: Option<Location> },
    Symbol { value: String, loc: Option<Location> },
    Lambda { form: Seq<Term>, scope: nat, builtin: Option<Builtin>, loc: Option<Location> },
    List { items: Seq<Term>, loc: Option<Location> },
}

pub open spec fn terms_of(v: Seq<Object>) -> Seq<Term>
    decreases v,
{
    Seq::new(v.len(), |i: int| if 0 <= i < v.len() { term_of(v[i]) } else { Term::Void { loc: None } })
}

/// The model of an object.
pub open spec fn term_of(o: Object) -> Term
    decreases o,
{
    match o {
        Object::Void { loc } => Term::Void { loc },
        Object::Integer { value, loc } => Term::Integer { value, loc },
        Object::Float { bits, loc } => Term::Float { bits, loc },
        Object::Bool { value, loc } => Term::Bool { value, loc },
        Object::Str { value, loc } => Term::Str { value, loc },
        Object::Symbol { value, loc } => Term::Symbol { value, loc },
        Object::Lambda { value, loc } => Term::Lambda {
            form: Seq::new(
                value.form@.len(),
                |i: int| if 0 <= i < value.form@.len() { term_of(value.form@[i]) } else { Term::Void { loc: None } },
            ),
            scope: value.scope as nat,
            builtin: value.builtin,
            loc,
        },
        Object::List { value, loc } => Term::List {
            items: Seq::new(
                value@.len(),
                |i: int| if 0 <= i < value@.len() { term_of(value@[i]) } else { Term::Void { loc: None } },
            ),
            loc,
        },
    }
}

impl View for Object {
    type V = Term;

    open spec fn view(&self) -> Term {
        term_of(*self)
    }
}

pub open spec fn kind_of(t: Term) -> Kind {
    match t {
        Term::Void { .. } => Kind::Void,
        Term::Integer { .. } => Kind::Integer,
        Term::Float { .. } => Kind::Float,
        Term::Bool { .. } => Kind::Bool,
        Term::Str { .. } => Kind::Str,
        Term::Symbol { .. } => Kind::Symbol,
        Term::Lambda { .. } => Kind::Lambda,
        Term::List { .. } => Kind::List,
    }
}

pub open spec fn loc_of(t: Term) -> Option<Location> {
    match t {
        Term::Void { loc } => loc,
        Term::Integer { loc, .. } => loc,
        Term::Float { loc, .. } => loc,
        Term::Bool { loc, .. } => loc,
        Term::Str { loc, .. } => loc,
        Term::Symbol { loc, .. } => loc,
        Term::Lambda { loc, .. } => loc,
        Term::List { loc, .. } => loc,
    }
}

/// Whether a term is the symbol spelled `w`.
pub open spec fn is_word(t: Term, w: Seq<char>) -> bool {
    t is Symbol && t->Symbol_value@ == w
}

impl Object {
    /// A copy of this object, equal to it; lists and closure forms are shared, not duplicated.
    pub fn copy(&self) -> (r: Object)
        ensures
            r == *self,
    {
        match self {
            Object::Void { loc } => Object::Void { loc: copy_loc(loc) },
            Object::Integer { value, loc } => Object::Integer { value: *value, loc: copy_loc(loc) },
            Object::Float { bits, loc } => Object::Float { bits: *bits, loc: copy_loc(loc) },
            Object::Bool { value, loc } => Object::Bool { value: *value, loc: copy_loc(loc) },
            Object::Str { value, loc } => Object::Str { value: value.clone(), loc: copy_loc(loc) },
            Object::Symbol { value, loc } => Object::Symbol { value: value.clone(), loc: copy_loc(loc) },
            Object::Lambda { value, loc } => Object::Lambda {
                value: FunctionDefinition {
                    form: Rc::clone(&value.form),
                    scope: value.scope,
                    builtin: value.builtin,
                },
                loc: copy_loc(loc),
            },
            Object::List { value, loc } => Object::List { value: Rc::clone(value), loc: copy_loc(loc) },
        }
    }

    /// The source location this object carries, if any.
    pub fn loc(&self) -> (r: Option<&Location>)
        ensures
            r is Some <==> loc_of(self@) is Some,
            r is Some ==> *r->0 == loc_of(self@)->0,
    {
        match self {
            Object::Void { loc } => loc.as_ref(),
            Object::Integer { loc, .. } => loc.as_ref(),
            Object::Float { loc, .. } => loc.as_ref(),
            Object::Bool { loc, .. } => loc.as_ref(),
            Object::Str { loc, .. } => loc.as_ref(),
            Object::Symbol { loc, .. } => loc.as_ref(),
            Object::Lambda { loc, .. } => loc.as_ref(),
            Object::List { loc, .. } => loc.as_ref(),
        }
    }

    /// The kind of this object.
    pub fn kind(&self) -> (r: Kind)
        ensures
            r == kind_of(self@),
    {
        match self {
            Object::Void { .. } => Kind::Void,
            Object::Integer { .. } => Kind::Integer,
            Object::Float { .. } => Kind::Float,
            Object::Bool { .. } => Kind::Bool,
            Object::Str { .. } => Kind::Str,
            Object::Symbol { .. } => Kind::Symbol,
            Object::Lambda { .. } => Kind::Lambda,
            Object::List { .. } => Kind::List,
        }
    }

    /// The copied source location of this object.
    pub fn loc_copy(&self) -> (r: Option<Location>)
        ensures
            r == loc_of(self@),
    {
        match self.loc() {
            Some(l) => Some(l.copy()),
            None => None,
        }
    }
}

/// Whether `s` is spelled `w`.
pub fn same_word(s: &str, w: &str) -> (r: bool)
    ensures
        r == (s@ == w@),
{
    let n = s.unicode_len();
    if n != w.unicode_len() {
        return false;
    }
    let mut i: usize = 0;
    while i < n
        invariant
            n == s@.len(),
            n == w@.len(),
            i <= n,
            forall|j: int| 0 <= j < i ==> s@[j] == w@[j],
        decreases n - i,
    {
        if s.get_char(i) != w.get_char(i) {
            return false;
        }
        i = i + 1;
    }
    assert(s@ =~= w@);
    true
}

} // verus!
