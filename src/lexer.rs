use vstd::prelude::*;
use crate::location::Location;

verus! {

/// What a token is.
#[derive(Debug, Clone, PartialEq)]
pub enum TokenKind {
    LeftParenthesis,
    RightParenthesis,
    Integer(i128),
    /// A number with a fractional part, or an integer too large for 128 bits: its text.
    Float(String),
    Str(String),
    Symbol(String),
    Comment(String),
    /// A run of white space.
    Ignore,
}

/// A token and where it starts.
#[derive(Debug, Clone, PartialEq)]
pub struct Token {
    pub loc: Location,
    pub kind: TokenKind,
}

impl Token {
    pub fn loc(&self) -> (r: &Location)
        ensures
            *r == self.loc,
    {
        &self.loc
    }

    pub fn kind(&self) -> (r: &TokenKind)
        ensures
            *r == self.kind,
    {
        &self.kind
    }
}

/// The model of a token's kind.
pub enum Lexeme {
    Open,
    Close,
    Integer(i128),
    Float(Seq<char>),
    Str(Seq<char>),
    Symbol(Seq<char>),
    Comment(Seq<char>),
    Space,
}

pub open spec fn lexeme_of(k: TokenKind) -> Lexeme {
    match k {
        TokenKind::LeftParenthesis => Lexeme::Open,
        TokenKind::RightParenthesis => Lexeme::Close,
        TokenKind::Integer(v) => Lexeme::Integer(v),
        TokenKind::Float(t) => Lexeme::Float(t@),
        TokenKind::Str(t) => Lexeme::Str(t@),
        TokenKind::Symbol(t) => Lexeme::Symbol(t@),
        TokenKind::Comment(t) => Lexeme::Comment(t@),
        TokenKind::Ignore => Lexeme::Space,
    }
}

pub open spec fn is_space(c: char) -> bool {
    c == ' ' || c == '\t' || c == '\n' || c == '\r'
}

pub open spec fn is_digit(c: char) -> bool {
    '0' <= c <= '9'
}

/// Characters that end a symbol.
pub open spec fn is_delim(c: char) -> bool {
    is_space(c) || c == '(' || c == ')' || c == '"' || c == '\''
}

/// The classes of characters that a token runs over.
#[derive(Debug, Clone, Copy, PartialEq, Eq, Structural)]
pub enum CharClass {
    Digit,
    Space,
    SymbolChar,
    NotNewline,
}

pub open spec fn in_class(cl: CharClass, c: char) -> bool {
    match cl {
        CharClass::Digit => is_digit(c),
        CharClass::Space => is_space(c),
        CharClass::SymbolChar => !is_delim(c),
        CharClass::NotNewline => c != '\n',
    }
}

/// The end of the run of characters of class `cl` that starts at `i`.
pub open spec fn run_end(s: Seq<char>, i: int, cl: CharClass) -> int
    decreases s.len() - i,
{
    if i < 0 || i >= s.len() || !in_class(cl, s[i]) {
        i
    } else {
        run_end(s, i + 1, cl)
    }
}

/// The value of the decimal digits `s[a..b]`.
pub open spec fn digits_value(s: Seq<char>, a: int, b: int) -> int
    decreases b - a,
{
    if b <= a {
        0
    } else {
        digits_value(s, a, b - 1) * 10 + (s[b - 1] as int - '0' as int)
    }
}

/// A number at `i`: an optional sign, digits, and optionally a point and more digits.
/// Its lexeme and where it ends.
pub open spec fn number_at(s: Seq<char>, i: int) -> Option<(Lexeme, int)> {
    let signed = s[i] == '-' || s[i] == '+';
    let d0 = if signed { i + 1 } else { i };
    let d1 = run_end(s, d0, CharClass::Digit);
    if d1 == d0 {
        None
    } else if d1 + 1 < s.len() && s[d1] == '.' && is_digit(s[d1 + 1]) {
        let e = run_end(s, d1 + 1, CharClass::Digit);
        Some((Lexeme::Float(s.subrange(i, e)), e))
    } else {
        let v = if s[i] == '-' { -digits_value(s, d0, d1) } else { digits_value(s, d0, d1) };
        if i128::MIN <= v <= i128::MAX {
            Some((Lexeme::Integer(v as i128), d1))
        } else {
            Some((Lexeme::Float(s.subrange(i, d1)), d1))
        }
    }
}

/// The token that starts at `i`, in order of preference, and where it ends; `None` where
/// no token starts there (a stray quote, or a string that is never closed).
pub open spec fn token_at(s: Seq<char>, i: int) -> Option<(Lexeme, int)> {
    let c = s[i];
    if c == '(' {
        Some((Lexeme::Open, i + 1))
    } else if c == ')' {
        Some((Lexeme::Close, i + 1))
    } else if number_at(s, i) is Some {
        number_at(s, i)
    } else if c == '"' {
        let (body, n) = scan_string(s, i + 1);
        if i + 1 + n < s.len() && s[i + 1 + n] == '"' {
            Some((Lexeme::Str(body), i + 2 + n))
        } else {
            None
        }
    } else if c == ';' && i + 1 < s.len() && s[i + 1] == ';' {
        let e = run_end(s, i + 2, CharClass::NotNewline);
        Some((Lexeme::Comment(s.subrange(i + 2, e)), e))
    } else if is_space(c) {
        Some((Lexeme::Space, run_end(s, i, CharClass::Space)))
    } else if !is_delim(c) {
        let e = run_end(s, i, CharClass::SymbolChar);
        Some((Lexeme::Symbol(s.subrange(i, e)), e))
    } else {
        None
    }
}

/// The line and column after reading `s[i..j]` from line `line`, column `col`.
pub open spec fn advance(s: Seq<char>, i: int, j: int, line: nat, col: nat) -> (nat, nat)
    decreases j - i,
{
    if j <= i {
        (line, col)
    } else {
        let (l, c) = advance(s, i, j - 1, line, col);
        if s[j - 1] == '\n' { (l + 1, 1) } else { (l, c + 1) }
    }
}

/// The tokens of `s` from `i` on, each with its line and column, after those in `acc`;
/// or the line and column where no token starts.
pub open spec fn lex(s: Seq<char>, i: int, line: nat, col: nat, acc: Seq<(Lexeme, nat, nat)>) -> Result<Seq<(Lexeme, nat, nat)>, (nat, nat)>
    decreases s.len() - i,
{
    if i < 0 || i >= s.len() {
        Ok(acc)
    } else {
        match token_at(s, i) {
            Some((k, e)) => if e <= i || e > s.len() {
                Ok(acc)
            } else {
                let (l, c) = advance(s, i, e, line, col);
                lex(s, e, l, c, acc.push((k, line, col)))
            },
            None => Err((line, col)),
        }
    }
}

/// The contents of a string literal read from position `i` of `s`, up to the first
/// unescaped double quote or the end: the characters with each backslash escape replaced by
/// the character it escapes, and the number of characters consumed.
pub open spec fn scan_string(s: Seq<char>, i: int) -> (Seq<char>, nat)
    decreases s.len() - i,
{
    if i < 0 || i >= s.len() || s[i] == '"' {
        (Seq::empty(), 0)
    } else if s[i] != '\\' {
        let (r, n) = scan_string(s, i + 1);
        (seq![s[i]] + r, n + 1)
    } else if i + 1 >= s.len() {
        (Seq::empty(), 1)
    } else {
        let (r, n) = scan_string(s, i + 2);
        (seq![s[i + 1]] + r, n + 2)
    }
}

proof fn lemma_scan_len(s: Seq<char>, i: int)
    requires
        0 <= i <= s.len(),
    ensures
        scan_string(s, i).1 <= s.len() - i,
    decreases s.len() - i,
{
    if i < s.len() && s[i] != '"' {
        if s[i] != '\\' {
            lemma_scan_len(s, i + 1);
        } else if i + 1 < s.len() {
            lemma_scan_len(s, i + 2);
        }
    }
}

/// Relies on `String::push`: appends one character at the end.
#[verifier::external_body]
fn push_char(s: &mut String, c: char)
    ensures
        final(s)@ == old(s)@.push(c),
{
    s.push(c);
}

/// Reads the body of a string literal whose opening quote has been consumed: returns the
/// text with escapes resolved, and how many characters of `rest` it spans, closing quote
/// excluded.
pub fn match_string_helper(rest: &str) -> (r: (String, usize))
    ensures
        r.0@ == scan_string(rest@, 0).0,
        r.1 as nat == scan_string(rest@, 0).1,
{
    let n = rest.unicode_len();
    let mut out = String::new();
    let mut counter: usize = 0;
    let mut i: usize = 0;
    proof {
        lemma_scan_len(rest@, 0);
    }
    while i < n
        invariant
            n == rest@.len(),
            i <= n,
            counter == i,
            out@ + scan_string(rest@, i as int).0 == scan_string(rest@, 0).0,
            counter + scan_string(rest@, i as int).1 == scan_string(rest@, 0).1,
        decreases n - i,
    {
        let c = rest.get_char(i);
        if c == '"' {
            assert(out@ + scan_string(rest@, i as int).0 =~= out@);
            return (out, counter);
        }
        let ghost before = out@;
        if c != '\\' {
            push_char(&mut out, c);
            counter = counter + 1;
            i = i + 1;
            assert(before + scan_string(rest@, i - 1).0 == out@ + scan_string(rest@, i as int).0) by {
                assert(before + (seq![c] + scan_string(rest@, i as int).0) =~= out@ + scan_string(rest@, i as int).0);
            }
        } else if i + 1 < n {
            let d = rest.get_char(i + 1);
            push_char(&mut out, d);
            counter = counter + 2;
            i = i + 2;
            assert(before + scan_string(rest@, i - 2).0 == out@ + scan_string(rest@, i as int).0) by {
                assert(before + (seq![d] + scan_string(rest@, i as int).0) =~= out@ + scan_string(rest@, i as int).0);
            }
        } else {
            counter = counter + 1;
            assert(out@ + scan_string(rest@, i as int).0 =~= out@);
            return (out, counter);
        }
    }
    assert(out@ + scan_string(rest@, i as int).0 =~= out@);
    (out, counter)
}

/// Relies on `str::chars`: the characters of the string, in order.
#[verifier::external_body]
fn chars_of(s: &str) -> (r: Vec<char>)
    ensures
        r@ == s@,
{
    s.chars().collect()
}

fn is_space_exec(c: char) -> (r: bool)
    ensures
        r == is_space(c),
{
    c == ' ' || c == '\t' || c == '\n' || c == '\r'
}

fn is_digit_exec(c: char) -> (r: bool)
    ensures
        r == is_digit(c),
{
    '0' <= c && c <= '9'
}

fn in_class_exec(cl: CharClass, c: char) -> (r: bool)
    ensures
        r == in_class(cl, c),
{
    match cl {
        CharClass::Digit => is_digit_exec(c),
        CharClass::Space => is_space_exec(c),
        CharClass::SymbolChar => !(is_space_exec(c) || c == '(' || c == ')' || c == '"' || c == '\''),
        CharClass::NotNewline => c != '\n',
    }
}

fn run_end_exec(s: &Vec<char>, i: usize, cl: CharClass) -> (r: usize)
    requires
        i <= s@.len(),
    ensures
        r as int == run_end(s@, i as int, cl),
        i <= r <= s@.len(),
        i < s@.len() && in_class(cl, s@[i as int]) ==> i < r,
{
    let mut k = i;
    while k < s.len() && in_class_exec(cl, s[k])
        invariant
            i <= k <= s@.len(),
            run_end(s@, k as int, cl) == run_end(s@, i as int, cl),
        decreases s@.len() - k,
    {
        k = k + 1;
    }
    k
}

/// The text `s[a..b]`.
fn text_of(s: &Vec<char>, a: usize, b: usize) -> (r: String)
    requires
        a <= b <= s@.len(),
    ensures
        r@ == s@.subrange(a as int, b as int),
{
    let mut out = String::new();
    let mut k = a;
    while k < b
        invariant
            a <= k <= b,
            b <= s@.len(),
            out@ == s@.subrange(a as int, k as int),
        decreases b - k,
    {
        push_char(&mut out, s[k]);
        k = k + 1;
        assert(out@ =~= s@.subrange(a as int, k as int));
    }
    out
}

proof fn lemma_digits_grow(s: Seq<char>, a: int, k: int, b: int)
    requires
        a <= k <= b,
        forall|j: int| a <= j < b ==> is_digit(#[trigger] s[j]),
    ensures
        0 <= digits_value(s, a, k) <= digits_value(s, a, b),
    decreases b - k,
{
    if k < b {
        lemma_digits_grow(s, a, k + 1, b);
        assert(digits_value(s, a, k + 1) == digits_value(s, a, k) * 10 + (s[k] as int - '0' as int));
    } else {
        lemma_digits_nonneg(s, a, k);
    }
}

proof fn lemma_digits_nonneg(s: Seq<char>, a: int, b: int)
    requires
        forall|j: int| a <= j < b ==> is_digit(#[trigger] s[j]),
    ensures
        0 <= digits_value(s, a, b),
    decreases b - a,
{
    if a < b {
        lemma_digits_nonneg(s, a, b - 1);
    }
}

proof fn lemma_run_class(s: Seq<char>, i: int, cl: CharClass, j: int)
    requires
        0 <= i <= j < run_end(s, i, cl),
    ensures
        in_class(cl, s[j]),
    decreases j - i,
{
    if i < j {
        lemma_run_class(s, i + 1, cl, j);
    }
}

/// The value of the digits `s[d0..d1]`, negated where `neg`, if it fits in 128 bits.
fn integer_of(s: &Vec<char>, neg: bool, d0: usize, d1: usize) -> (r: Option<i128>)
    requires
        d0 <= d1 <= s@.len(),
        forall|j: int| d0 <= j < d1 ==> is_digit(#[trigger] s@[j]),
    ensures
        ({
            let v = if neg { -digits_value(s@, d0 as int, d1 as int) } else { digits_value(s@, d0 as int, d1 as int) };
            r == if i128::MIN <= v <= i128::MAX { Some(v as i128) } else { None::<i128> }
        }),
{
    let mut acc: i128 = 0;
    let mut k = d0;
    proof {
        lemma_digits_grow(s@, d0 as int, d0 as int, d1 as int);
    }
    while k < d1
        invariant
            d0 <= k <= d1,
            d1 <= s@.len(),
            forall|j: int| d0 <= j < d1 ==> is_digit(#[trigger] s@[j]),
            acc as int == if neg { -digits_value(s@, d0 as int, k as int) } else { digits_value(s@, d0 as int, k as int) },
        decreases d1 - k,
    {
        let c = s[k];
        assert(is_digit(s@[k as int]));
        let d = (c as u32 - '0' as u32) as i128;
        assert(digits_value(s@, d0 as int, k + 1) == digits_value(s@, d0 as int, k as int) * 10 + d);
        proof {
            lemma_digits_grow(s@, d0 as int, k + 1, d1 as int);
        }
        let m = acc.checked_mul(10);
        let next = match m {
            Some(m) => if neg { m.checked_sub(d) } else { m.checked_add(d) },
            None => None,
        };
        match next {
            Some(v) => {
                acc = v;
            },
            None => {
                return None;
            },
        }
        k = k + 1;
    }
    Some(acc)
}

pub open spec fn step_model(r: Option<(TokenKind, usize)>) -> Option<(Lexeme, int)> {
    match r {
        Some((k, e)) => Some((lexeme_of(k), e as int)),
        None => None,
    }
}

/// The number that starts at `i`, if one does, and where it ends.
fn number_at_exec(s: &Vec<char>, i: usize) -> (r: Option<(TokenKind, usize)>)
    requires
        i < s@.len(),
        s@.len() < usize::MAX,
    ensures
        step_model(r) == number_at(s@, i as int),
        r matches Some((_, e)) ==> i < e <= s@.len(),
{
    let c = s[i];
    let signed = c == '-' || c == '+';
    let d0 = if signed { i + 1 } else { i };
    let d1 = run_end_exec(s, d0, CharClass::Digit);
    if d1 == d0 {
        return None;
    }
    if d1 + 1 < s.len() && s[d1] == '.' && is_digit_exec(s[d1 + 1]) {
        let e = run_end_exec(s, d1 + 1, CharClass::Digit);
        return Some((TokenKind::Float(text_of(s, i, e)), e));
    }
    proof {
        assert forall|j: int| d0 <= j < d1 implies is_digit(#[trigger] s@[j]) by {
            lemma_run_class(s@, d0 as int, CharClass::Digit, j);
        }
    }
    match integer_of(s, c == '-', d0, d1) {
        Some(v) => Some((TokenKind::Integer(v), d1)),
        None => Some((TokenKind::Float(text_of(s, i, d1)), d1)),
    }
}

/// The token that starts at `i`, if one does, and where it ends.
fn token_at_exec(s: &Vec<char>, i: usize) -> (r: Option<(TokenKind, usize)>)
    requires
        i < s@.len(),
        s@.len() < usize::MAX,
    ensures
        step_model(r) == token_at(s@, i as int),
        r matches Some((_, e)) ==> i < e <= s@.len(),
{
    let c = s[i];
    if c == '(' {
        return Some((TokenKind::LeftParenthesis, i + 1));
    }
    if c == ')' {
        return Some((TokenKind::RightParenthesis, i + 1));
    }
    let num = number_at_exec(s, i);
    if num.is_some() {
        return num;
    }
    if c == '"' {
        let (body, n) = scan_chars(s, i + 1);
        if n < s.len() - i - 1 && s[i + 1 + n] == '"' {
            return Some((TokenKind::Str(body), i + 2 + n));
        }
        return None;
    }
    if c == ';' && i + 1 < s.len() && s[i + 1] == ';' {
        let e = run_end_exec(s, i + 2, CharClass::NotNewline);
        return Some((TokenKind::Comment(text_of(s, i + 2, e)), e));
    }
    if is_space_exec(c) {
        let e = run_end_exec(s, i, CharClass::Space);
        return Some((TokenKind::Ignore, e));
    }
    if in_class_exec(CharClass::SymbolChar, c) {
        let e = run_end_exec(s, i, CharClass::SymbolChar);
        return Some((TokenKind::Symbol(text_of(s, i, e)), e));
    }
    None
}

/// The body of a string literal read from `s[i..]`, as `match_string_helper` reads it.
fn scan_chars(s: &Vec<char>, i: usize) -> (r: (String, usize))
    requires
        i <= s@.len(),
    ensures
        r.0@ == scan_string(s@, i as int).0,
        r.1 as nat == scan_string(s@, i as int).1,
        r.1 as nat <= s@.len() - i,
{
    let n = s.len();
    let mut out = String::new();
    let mut counter: usize = 0;
    let mut k: usize = i;
    proof {
        lemma_scan_len(s@, i as int);
    }
    while k < n
        invariant
            n == s@.len(),
            i <= k <= n,
            counter == k - i,
            out@ + scan_string(s@, k as int).0 == scan_string(s@, i as int).0,
            counter + scan_string(s@, k as int).1 == scan_string(s@, i as int).1,
        decreases n - k,
    {
        let c = s[k];
        let ghost before = out@;
        if c == '"' {
            assert(out@ + scan_string(s@, k as int).0 =~= out@);
            return (out, counter);
        }
        if c != '\\' {
            push_char(&mut out, c);
            counter = counter + 1;
            k = k + 1;
            assert(before + scan_string(s@, k - 1).0 == out@ + scan_string(s@, k as int).0) by {
                assert(before + (seq![c] + scan_string(s@, k as int).0) =~= out@ + scan_string(s@, k as int).0);
            }
        } else if k + 1 < n {
            let d = s[k + 1];
            push_char(&mut out, d);
            counter = counter + 2;
            k = k + 2;
            assert(before + scan_string(s@, k - 2).0 == out@ + scan_string(s@, k as int).0) by {
                assert(before + (seq![d] + scan_string(s@, k as int).0) =~= out@ + scan_string(s@, k as int).0);
            }
        } else {
            counter = counter + 1;
            assert(out@ + scan_string(s@, k as int).0 =~= out@);
            return (out, counter);
        }
    }
    assert(out@ + scan_string(s@, k as int).0 =~= out@);
    (out, counter)
}

pub open spec fn token_model(t: Token) -> (Lexeme, nat, nat) {
    (lexeme_of(t.kind), t.loc.rol as nat, t.loc.col as nat)
}

pub open spec fn tokens_model(ts: Seq<Token>) -> Seq<(Lexeme, nat, nat)> {
    Seq::new(ts.len(), |i: int| token_model(ts[i]))
}

/// Splits `content` into tokens, each located in file `fname` at its 1-based line and
/// column. Fails with the location of the first place where no token starts.
pub fn tokenize(fname: &str, content: &str) -> (r: Result<Vec<Token>, Location>)
    requires
        content@.len() < usize::MAX,
    ensures
        match r {
            Ok(ts) => {
                &&& lex(content@, 0, 1, 1, Seq::empty()) == Ok::<Seq<(Lexeme, nat, nat)>, (nat, nat)>(tokens_model(ts@))
                &&& forall|j: int| 0 <= j < ts@.len() ==> (#[trigger] ts@[j]).loc.filename@ == fname@
            },
            Err(l) => {
                &&& lex(content@, 0, 1, 1, Seq::empty()) == Err::<Seq<(Lexeme, nat, nat)>, (nat, nat)>((l.rol as nat, l.col as nat))
                &&& l.filename@ == fname@
            },
        },
{
    let s = chars_of(content);
    let n = s.len();
    let mut tokens: Vec<Token> = Vec::new();
    let mut i: usize = 0;
    let mut line: usize = 1;
    let mut col: usize = 1;
    assert(tokens_model(tokens@) =~= Seq::empty());
    while i < n
        invariant
            n == s@.len(),
            n < usize::MAX,
            s@ == content@,
            i <= n,
            1 <= line <= i + 1,
            1 <= col <= i + 1,
            lex(s@, i as int, line as nat, col as nat, tokens_model(tokens@)) == lex(s@, 0, 1, 1, Seq::empty()),
            forall|j: int| 0 <= j < tokens@.len() ==> (#[trigger] tokens@[j]).loc.filename@ == fname@,
        decreases n - i,
    {
        match token_at_exec(&s, i) {
            Some((kind, e)) => {
                let ghost before = tokens_model(tokens@);
                let tok = Token { loc: Location::new(fname.to_owned(), line, col), kind };
                tokens.push(tok);
                assert(tokens_model(tokens@) =~= before.push((lexeme_of(kind), line as nat, col as nat)));
                let mut l = line;
                let mut c = col;
                let mut k = i;
                while k < e
                    invariant
                        i <= k <= e,
                        e <= n,
                        n == s@.len(),
                        n < usize::MAX,
                        1 <= l <= k + 1,
                        1 <= c <= k + 1,
                        (l as nat, c as nat) == advance(s@, i as int, k as int, line as nat, col as nat),
                    decreases e - k,
                {
                    if s[k] == '\n' {
                        l = l + 1;
                        c = 1;
                    } else {
                        c = c + 1;
                    }
                    k = k + 1;
                }
                line = l;
                col = c;
                i = e;
            },
            None => {
                return Err(Location::new(fname.to_owned(), line, col));
            },
        }
    }
    Ok(tokens)
}

} // verus!
