use minilisp::error::Error;
use minilisp::lexer::Token;
use minilisp::lexer::tokenize;

fn bits(x: f32) -> u32 {
    x.to_bits()
}

#[test]
fn tokenizes_a_simple_form() {
    let tokens = tokenize("(+ 1 2)").unwrap();
    assert_eq!(
        tokens,
        vec![
            Token::OpenParen,
            Token::Ident("+".to_owned()),
            Token::Number(bits(1.0)),
            Token::Number(bits(2.0)),
            Token::CloseParen,
        ]
    );
}

#[test]
fn reserved_words_get_dedicated_tokens() {
    let tokens = tokenize("(def lambda if true false)").unwrap();
    assert_eq!(
        tokens,
        vec![
            Token::OpenParen,
            Token::Def,
            Token::Lambda,
            Token::If,
            Token::Bool(true),
            Token::Bool(false),
            Token::CloseParen,
        ]
    );
}

#[test]
fn a_word_starting_like_a_keyword_is_an_identifier() {
    let tokens = tokenize("deffy").unwrap();
    assert_eq!(tokens, vec![Token::Ident("deffy".to_owned())]);
}

#[test]
fn decimal_numbers_lex() {
    assert_eq!(tokenize("2.5").unwrap(), vec![Token::Number(bits(2.5))]);
    assert_eq!(tokenize(".5").unwrap(), vec![Token::Number(bits(0.5))]);
    assert_eq!(tokenize("007").unwrap(), vec![Token::Number(bits(7.0))]);
}

#[test]
fn a_lone_dot_is_a_dot_token() {
    assert_eq!(tokenize(".").unwrap(), vec![Token::Dot]);
}

#[test]
fn adjacent_atoms_need_a_separator() {
    assert_eq!(tokenize("3x"), Err(Error::TokenizeError));
    assert_eq!(tokenize("3.5.2"), Err(Error::TokenizeError));
    assert_eq!(tokenize("3."), Err(Error::TokenizeError));
}

#[test]
fn parentheses_need_no_separator() {
    let tokens = tokenize("(+(1)2)").unwrap();
    assert_eq!(
        tokens,
        vec![
            Token::OpenParen,
            Token::Ident("+".to_owned()),
            Token::OpenParen,
            Token::Number(bits(1.0)),
            Token::CloseParen,
            Token::Number(bits(2.0)),
            Token::CloseParen,
        ]
    );
}

#[test]
fn illegal_characters_are_rejected() {
    assert_eq!(tokenize("(+ 1 #)"), Err(Error::TokenizeError));
}

#[test]
fn whitespace_only_input_gives_no_tokens() {
    assert_eq!(tokenize("   \t \n ").unwrap(), Vec::<Token>::new());
}

#[test]
fn a_minus_sign_begins_an_identifier_not_a_number() {
    // The grammar has no negative literals: '-' starts an identifier,
    // so "-3" is one identifier.
    assert_eq!(tokenize("-3").unwrap(), vec![Token::Ident("-3".to_owned())]);
}
