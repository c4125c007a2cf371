use vstd::prelude::*;
use std::rc::Rc;
use crate::lexer::{Token, TokenKind};
use crate::location::Location;
use crate::object::{Object, Term, terms_of};

verus! {

/// Why a token sequence is not a well-formed program.
#[derive(Debug, Clone, PartialEq)]
pub enum ParseError {
    /// A `)` with no `(` open.
    UnexpectedClose { loc: Location },
    /// A `(` that is never closed.
    Unclosed { loc: Location },
    /// A floating-point token with no value supplied for it.
    MissingFloat { loc: Location },
}

/// The expression that an atom token stands for, at its location; a floating-point token
/// takes the bit pattern `bits`.
pub open spec fn atom_term(t: Token, bits: u64) -> Term {
    let loc = Some(t.loc);
    match t.kind {
        TokenKind::Integer(v) => Term::Integer { value: v, loc },
        TokenKind::Float(_) => Term::Float { bits, loc },
        TokenKind::Str(s) => Term::Str { value: s, loc },
        _ => Term::Symbol { value: t.kind->Symbol_0, loc },
    }
}

/// Reads expressions from token `pos` on, after those in `acc`, until the `)` that closes
/// the list opened at `open` or, with no list open, the end. `fi` counts the floating-point
/// tokens read so far; the `fi`-th takes `floats[fi]`. The result holds the expressions,
/// the position after them, and the new count.
pub open spec fn parse_seq(ts: Seq<Token>, floats: Seq<u64>, pos: int, fi: int, open: Option<Location>, acc: Seq<Term>) -> Result<(Seq<Term>, int, int), ParseError>
    decreases ts.len() - pos, 0int,
{
    if pos < 0 || pos >= ts.len() {
        match open {
            Some(l) => Err(ParseError::Unclosed { loc: l }),
            None => Ok((acc, pos, fi)),
        }
    } else {
        let t = ts[pos];
        match t.kind {
            TokenKind::Comment(_) | TokenKind::Ignore => parse_seq(ts, floats, pos + 1, fi, open, acc),
            TokenKind::RightParenthesis => match open {
                Some(_) => Ok((acc, pos + 1, fi)),
                None => Err(ParseError::UnexpectedClose { loc: t.loc }),
            },
            TokenKind::LeftParenthesis => match parse_seq(ts, floats, pos + 1, fi, Some(t.loc), Seq::empty()) {
                Ok((items, p2, f2)) => if p2 <= pos || p2 > ts.len() {
                    Ok((acc, pos, fi))
                } else {
                    parse_seq(ts, floats, p2, f2, open, acc.push(Term::List { items, loc: Some(t.loc) }))
                },
                Err(e) => Err(e),
            },
            TokenKind::Float(_) => if fi < 0 || fi >= floats.len() {
                Err(ParseError::MissingFloat { loc: t.loc })
            } else {
                parse_seq(ts, floats, pos + 1, fi + 1, open, acc.push(atom_term(t, floats[fi])))
            },
            _ => parse_seq(ts, floats, pos + 1, fi, open, acc.push(atom_term(t, 0))),
        }
    }
}

/// The program that a token sequence reads as: the list of its top-level expressions.
pub open spec fn program_of(ts: Seq<Token>, floats: Seq<u64>) -> Result<Term, ParseError> {
    match parse_seq(ts, floats, 0, 0, None, Seq::empty()) {
        Ok((items, _, _)) => Ok(Term::List { items, loc: None }),
        Err(e) => Err(e),
    }
}

pub open spec fn parse_view(r: Result<(Vec<Object>, usize, usize), ParseError>) -> Result<(Seq<Term>, int, int), ParseError> {
    match r {
        Ok((v, p, f)) => Ok((terms_of(v@), p as int, f as int)),
        Err(e) => Err(e),
    }
}

fn copy_string(s: &String) -> (r: String)
    ensures
        r == *s,
{
    s.clone()
}

/// Reads expressions from token `pos` on, as `parse_seq` describes, starting with none.
pub fn parse_list(tokens: &Vec<Token>, floats: &Vec<u64>, pos: usize, fi: usize, open: &Option<Location>) -> (r: Result<(Vec<Object>, usize, usize), ParseError>)
    requires
        pos <= tokens@.len(),
        fi <= floats@.len(),
    ensures
        parse_view(r) == parse_seq(tokens@, floats@, pos as int, fi as int, *open, Seq::empty()),
        r matches Ok((_, p, f)) ==> pos <= p <= tokens@.len() && f <= floats@.len(),
    decreases tokens@.len() - pos,
{
    let n = tokens.len();
    let mut objs: Vec<Object> = Vec::new();
    let mut p = pos;
    let mut f = fi;
    assert(terms_of(objs@) =~= Seq::<Term>::empty());
    while p < n
        invariant
            n == tokens@.len(),
            pos <= p <= n,
            f <= floats@.len(),
            parse_seq(tokens@, floats@, p as int, f as int, *open, terms_of(objs@))
                == parse_seq(tokens@, floats@, pos as int, fi as int, *open, Seq::empty()),
        decreases n - p,
    {
        let t = &tokens[p];
        let ghost before = terms_of(objs@);
        match &t.kind {
            TokenKind::Comment(_) | TokenKind::Ignore => {
                p = p + 1;
            },
            TokenKind::RightParenthesis => {
                match open {
                    Some(_) => {
                        return Ok((objs, p + 1, f));
                    },
                    None => {
                        return Err(ParseError::UnexpectedClose { loc: t.loc.copy() });
                    },
                }
            },
            TokenKind::LeftParenthesis => {
                let here = Some(t.loc.copy());
                match parse_list(tokens, floats, p + 1, f, &here) {
                    Ok((items, p2, f2)) => {
                        let ghost its = terms_of(items@);
                        let o = Object::List { value: Rc::new(items), loc: here };
                        assert(o@ == Term::List { items: its, loc: Some(t.loc) }) by {
                            assert(o@->List_items =~= its);
                        }
                        objs.push(o);
                        assert(terms_of(objs@) =~= before.push(Term::List { items: its, loc: Some(t.loc) }));
                        p = p2;
                        f = f2;
                    },
                    Err(e) => {
                        return Err(e);
                    },
                }
            },
            TokenKind::Float(_) => {
                if f >= floats.len() {
                    return Err(ParseError::MissingFloat { loc: t.loc.copy() });
                }
                let o = Object::Float { bits: floats[f], loc: Some(t.loc.copy()) };
                objs.push(o);
                assert(terms_of(objs@) =~= before.push(atom_term(*t, floats@[f as int])));
                p = p + 1;
                f = f + 1;
            },
            TokenKind::Integer(v) => {
                objs.push(Object::Integer { value: *v, loc: Some(t.loc.copy()) });
                assert(terms_of(objs@) =~= before.push(atom_term(*t, 0)));
                p = p + 1;
            },
            TokenKind::Str(s) => {
                objs.push(Object::Str { value: copy_string(s), loc: Some(t.loc.copy()) });
                assert(terms_of(objs@) =~= before.push(atom_term(*t, 0)));
                p = p + 1;
            },
            TokenKind::Symbol(s) => {
                objs.push(Object::Symbol { value: copy_string(s), loc: Some(t.loc.copy()) });
                assert(terms_of(objs@) =~= before.push(atom_term(*t, 0)));
                p = p + 1;
            },
        }
    }
    match open {
        Some(l) => Err(ParseError::Unclosed { loc: l.copy() }),
        None => Ok((objs, p, f)),
    }
}

/// Reads a whole token sequence as a program: the list of its top-level expressions.
/// `floats` holds, in order, the bit pattern of each floating-point token.
pub fn parse(tokens: &Vec<Token>, floats: &Vec<u64>) -> (r: Result<Object, ParseError>)
    ensures
        match r {
            Ok(o) => program_of(tokens@, floats@) == Ok::<Term, ParseError>(o@),
            Err(e) => program_of(tokens@, floats@) == Err::<Term, ParseError>(e),
        },
{
    match parse_list(tokens, floats, 0, 0, &None) {
        Ok((items, _, _)) => {
            let ghost its = terms_of(items@);
            let o = Object::List { value: Rc::new(items), loc: None };
            assert(o@->List_items =~= its);
            Ok(o)
        },
        Err(e) => Err(e),
    }
}

} // verus!
