use pratt::token::{lex, Token, TokenKind};

#[test]
fn lex_two_digits_stay_separate() {
    assert_eq!(lex("12"), Some(vec![Token::Digit(1), Token::Digit(2)]));
}

#[test]
fn lex_every_digit_value() {
    let tokens = lex("0123456789").expect("digits lex");
    let expected: Vec<Token> = (0..10).map(Token::Digit).collect();
    assert_eq!(tokens, expected);
}

#[test]
fn lex_every_operator() {
    assert_eq!(
        lex("+*-!"),
        Some(vec![
            Token::Op(TokenKind::Plus),
            Token::Op(TokenKind::Times),
            Token::Op(TokenKind::Hyphen),
            Token::Op(TokenKind::Bang),
        ])
    );
}

#[test]
fn lex_skips_whitespace() {
    assert_eq!(
        lex(" 1 +\t2\n"),
        Some(vec![
            Token::Digit(1),
            Token::Op(TokenKind::Plus),
            Token::Digit(2),
        ])
    );
}

#[test]
fn lex_fails_on_unrecognized_character() {
    assert_eq!(lex("5 & 3"), None);
}

#[test]
fn lex_empty_input_gives_no_tokens() {
    assert_eq!(lex(""), Some(vec![]));
}

#[test]
fn token_kind_classifies() {
    assert_eq!(Token::Op(TokenKind::Hyphen).kind(), TokenKind::Hyphen);
    assert_eq!(Token::Op(TokenKind::Bang).kind(), TokenKind::Bang);
    assert_eq!(Token::Digit(7).kind(), TokenKind::Value);
}
