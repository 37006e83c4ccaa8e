use minilisp::error::Error;
use minilisp::expression::Exp;
use minilisp::lexer::tokenize;
use minilisp::parser::parse;

fn read(text: &str) -> Result<Exp, Error> {
    parse(&tokenize(text).unwrap())
}

#[test]
fn parses_atoms() {
    assert!(matches!(read("5").unwrap(), Exp::Number(b) if b == 5.0f32.to_bits()));
    assert!(matches!(read("true").unwrap(), Exp::Bool(true)));
    assert!(matches!(read("x").unwrap(), Exp::Ident(s) if s == "x"));
}

#[test]
fn parses_nested_lists() {
    let exp = read("(+ (* 2 3) 1)").unwrap();
    let list = match exp {
        Exp::List(l) => l,
        _ => panic!("expected a list"),
    };
    assert!(matches!(list.head().unwrap(), Exp::Ident(s) if s == "+"));
    let rest = list.tail().unwrap();
    assert!(matches!(rest.head().unwrap(), Exp::List(_)));
    let rest2 = rest.tail().unwrap();
    assert!(matches!(rest2.head().unwrap(), Exp::Number(b) if *b == 1.0f32.to_bits()));
    assert!(rest2.tail().unwrap().head().is_none());
}

#[test]
fn parses_the_empty_list() {
    let exp = read("()").unwrap();
    match exp {
        Exp::List(l) => assert!(l.head().is_none()),
        _ => panic!("expected a list"),
    }
}

#[test]
fn empty_input_is_a_parse_error() {
    assert!(matches!(read(""), Err(Error::ParseError)));
}

#[test]
fn unbalanced_input_is_a_parse_error() {
    assert!(matches!(read("("), Err(Error::ParseError)));
    assert!(matches!(read("(+ 1 2"), Err(Error::ParseError)));
    assert!(matches!(read(")"), Err(Error::ParseError)));
}

#[test]
fn read_helper_reports_lexing_errors_first() {
    assert!(matches!(minilisp::parser::read("3x"), Err(Error::TokenizeError)));
    assert!(matches!(minilisp::parser::read("(def x 5)"), Ok(Exp::List(_))));
}
