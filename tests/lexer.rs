use lisp_eval::lexer::match_string_helper;

#[test]
fn test_match_string_helper() {
    let string1 = "This is the string\"";
    let string2 = "This is the string with \\\"Inner String\\\" Done!\"";
    let string3 = "This is the string with \\\"Inner String\\\"\"";
    let result1 = match_string_helper(string1);
    let result2 = match_string_helper(string2);
    let result3 = match_string_helper(string3);
    assert_eq!(result1.0, "This is the string");
    assert_eq!(result1.1, 18);
    assert_eq!(result2.0, "This is the string with \"Inner String\" Done!");
    assert_eq!(result2.1, 46);
    assert_eq!(result3.0, "This is the string with \"Inner String\"");
    assert_eq!(result3.1, 40);
}

#[test]
fn string_helper_stops_at_end_and_trailing_backslash() {
    assert_eq!(match_string_helper(""), (String::new(), 0));
    assert_eq!(match_string_helper("abc"), ("abc".to_string(), 3));
    assert_eq!(match_string_helper("ab\\"), ("ab".to_string(), 3));
    assert_eq!(match_string_helper("a\\nb\"rest"), ("anb".to_string(), 4));
}

use lisp_eval::lexer::{tokenize, TokenKind};
use lisp_eval::location::Location;
use lisp_eval::parser::{parse, ParseError};
use lisp_eval::environment::Environment;
use lisp_eval::evaluator::eval_program;
use lisp_eval::object::Object;

fn kinds(src: &str) -> Vec<TokenKind> {
    tokenize("lexer_test.rs", src).unwrap().into_iter().map(|t| t.kind).collect()
}

#[test]
fn test_match_leftparen() {
    let result = &kinds("(define x 10)")[0];
    assert_eq!(*result, TokenKind::LeftParenthesis);
}

#[test]
fn test_match_identifier() {
    let result1 = &kinds("monster? true)")[0];
    let result2 = &kinds("define ")[0];
    assert_eq!(*result1, TokenKind::Symbol("monster?".to_string()));
    assert_eq!(*result2, TokenKind::Symbol("define".to_string()));
}

#[test]
fn test_match_numeric() {
    let result1 = &kinds("123")[0];
    let result2 = &kinds("123.123")[0];
    assert_eq!(*result1, TokenKind::Integer(123));
    match result2 {
        TokenKind::Float(text) => assert_eq!(text.parse::<f64>().unwrap(), 123.123),
        other => panic!("expected a float, got {:?}", other),
    }
}

#[test]
fn test_match_string() {
    let result1 = &kinds("\"FooBar\"")[0];
    let result2 = &kinds("\"   \\\"This is an Inner string\\\"   \"")[0];
    assert_eq!(*result1, TokenKind::Str("FooBar".to_string()));
    assert_eq!(*result2, TokenKind::Str("   \"This is an Inner string\"   ".to_string()));
}

#[test]
fn test_comment() {
    let result = &kinds(";; This is my comment")[0];
    assert_eq!(*result, TokenKind::Comment(" This is my comment".to_string()));
}

#[test]
fn test_ignore() {
    let result = &kinds("           123")[0];
    assert_eq!(*result, TokenKind::Ignore);
}

#[test]
fn test_tokenize() {
    let prog = "(define x 10)\n(define y 20.13)\n(+ x y)";
    let result = kinds(prog);
    assert_eq!(
        result,
        vec![
            TokenKind::LeftParenthesis,
            TokenKind::Symbol("define".to_string()),
            TokenKind::Ignore,
            TokenKind::Symbol("x".to_string()),
            TokenKind::Ignore,
            TokenKind::Integer(10),
            TokenKind::RightParenthesis,
            TokenKind::Ignore,
            TokenKind::LeftParenthesis,
            TokenKind::Symbol("define".to_string()),
            TokenKind::Ignore,
            TokenKind::Symbol("y".to_string()),
            TokenKind::Ignore,
            TokenKind::Float("20.13".to_string()),
            TokenKind::RightParenthesis,
            TokenKind::Ignore,
            TokenKind::LeftParenthesis,
            TokenKind::Symbol("+".to_string()),
            TokenKind::Ignore,
            TokenKind::Symbol("x".to_string()),
            TokenKind::Ignore,
            TokenKind::Symbol("y".to_string()),
            TokenKind::RightParenthesis,
        ]
    );
}

#[test]
fn tokens_carry_line_and_column() {
    let ts = tokenize("f.lisp", "(a\n  bc)").unwrap();
    let at: Vec<(usize, usize)> = ts.iter().map(|t| (t.loc().rol(), t.loc().col())).collect();
    assert_eq!(at, vec![(1, 1), (1, 2), (1, 3), (2, 3), (2, 5)]);
    assert_eq!(ts[3].loc().filename(), "f.lisp");
    assert_eq!(*ts[3].kind(), TokenKind::Symbol("bc".to_string()));
}

#[test]
fn numbers_signs_and_overflow() {
    assert_eq!(kinds("-5")[0], TokenKind::Integer(-5));
    assert_eq!(kinds("+7")[0], TokenKind::Integer(7));
    assert_eq!(kinds("-")[0], TokenKind::Symbol("-".to_string()));
    assert_eq!(
        kinds("-170141183460469231731687303715884105728")[0],
        TokenKind::Integer(i128::MIN)
    );
    assert_eq!(
        kinds("170141183460469231731687303715884105728")[0],
        TokenKind::Float("170141183460469231731687303715884105728".to_string())
    );
}

#[test]
fn tokenize_reports_where_it_stops() {
    assert_eq!(tokenize("f", "(a 'b)"), Err(Location::new("f".to_string(), 1, 4)));
    assert_eq!(tokenize("f", "\"open"), Err(Location::new("f".to_string(), 1, 1)));
    assert_eq!(tokenize("f", ""), Ok(vec![]));
}

fn tokens_of(src: &str) -> Vec<lisp_eval::lexer::Token> {
    tokenize("parser_test.rs", src).unwrap()
}

fn floats_of(ts: &[lisp_eval::lexer::Token]) -> Vec<u64> {
    ts.iter()
        .filter_map(|t| match t.kind() {
            TokenKind::Float(text) => Some(text.parse::<f64>().unwrap().to_bits()),
            _ => None,
        })
        .collect()
}

#[test]
fn test_parse() {
    // Test reporting error when unclosed list found
    let tokens = tokens_of("\"Atom!\"\n(define x 10");
    let test = parse(&tokens, &floats_of(&tokens));
    assert!(test.is_err());

    // Test reporting error when unexpected right parenthesis found
    let tokens = tokens_of("())");
    let test = parse(&tokens, &floats_of(&tokens));
    assert!(test.is_err());

    // Test for Normal case
    let tokens = tokens_of("(define x 10)\n(define add-func (lambda (x y z) (+ x y z)))");
    let test = parse(&tokens, &floats_of(&tokens));
    println!("{:#?}", test);
    assert!(test.is_ok());
}

#[test]
fn parse_errors_carry_locations() {
    let tokens = tokens_of("(a\n (b)");
    assert_eq!(
        parse(&tokens, &floats_of(&tokens)),
        Err(ParseError::Unclosed { loc: Location::new("parser_test.rs".to_string(), 1, 1) })
    );
    let tokens = tokens_of("a)");
    assert_eq!(
        parse(&tokens, &floats_of(&tokens)),
        Err(ParseError::UnexpectedClose { loc: Location::new("parser_test.rs".to_string(), 1, 2) })
    );
    let tokens = tokens_of("1.5");
    assert_eq!(
        parse(&tokens, &vec![]),
        Err(ParseError::MissingFloat { loc: Location::new("parser_test.rs".to_string(), 1, 1) })
    );
}

#[test]
fn read_and_evaluate_a_program() {
    let src = ";; closures\n(define y 5)\n(define f (lambda () y))\n(define y 6)\n(f)";
    let tokens = tokens_of(src);
    let program = parse(&tokens, &floats_of(&tokens)).unwrap();
    let forms = match &program {
        Object::List { value, .. } => value.as_ref().clone(),
        _ => panic!("a program is a list"),
    };
    let mut env = Environment::new();
    let r = eval_program(&forms, &mut env).unwrap();
    match r {
        Object::Integer { value, .. } => assert_eq!(value, 6),
        other => panic!("unexpected {:?}", other),
    }
    let tokens = tokens_of("(define a 1) (nope) (define b 2)");
    let program = parse(&tokens, &floats_of(&tokens)).unwrap();
    let forms = match &program {
        Object::List { value, .. } => value.as_ref().clone(),
        _ => panic!("a program is a list"),
    };
    let mut env = Environment::new();
    assert!(eval_program(&forms, &mut env).is_err());
    assert!(env.get(0, "a").is_some());
    assert!(env.get(0, "b").is_none());
}

#[test]
fn float_literal_keeps_its_bits() {
    let tokens = tokens_of("2.5");
    let program = parse(&tokens, &floats_of(&tokens)).unwrap();
    match program {
        Object::List { value, .. } => match &value[0] {
            Object::Float { bits, .. } => assert_eq!(f64::from_bits(*bits), 2.5),
            other => panic!("unexpected {:?}", other),
        },
        _ => panic!("a program is a list"),
    }
}

#[test]
fn errors_point_at_the_source() {
    let tokens = tokens_of("(define s \"a\")\n(+ 1 s)");
    let program = parse(&tokens, &floats_of(&tokens)).unwrap();
    let forms = match &program {
        Object::List { value, .. } => value.as_ref().clone(),
        _ => panic!("a program is a list"),
    };
    let mut env = Environment::new();
    let err = eval_program(&forms, &mut env).unwrap_err();
    assert_eq!(
        err,
        lisp_eval::error::EvalError::TypeMismatch {
            expected: lisp_eval::object::Kind::Number,
            found: lisp_eval::object::Kind::Str,
            loc: Some(Location::new("parser_test.rs".to_string(), 1, 11)),
        }
    );
}
