use pratt::pratt::{
    sample_parser, InfixAction, InfixRule, ParserError, PrefixAction, PrefixRule, AST,
};
use pratt::token::{lex, Token, TokenKind};

#[test]
fn sample_plus_is_right_associative() {
    let tokens = lex("1+2+3").expect("lexes");
    let mut parser = sample_parser();
    parser.load_input(tokens);
    let ast = parser.expression(0);
    assert_eq!(
        ast,
        Ok(AST::Infix(
            TokenKind::Plus,
            Box::new(AST::Value(1)),
            Box::new(AST::Infix(
                TokenKind::Plus,
                Box::new(AST::Value(2)),
                Box::new(AST::Value(3)),
            )),
        ))
    );
    assert_eq!(parser.index, parser.tokens.len());
}

#[test]
fn prefix_nesting_follows_textual_order() {
    let mut parser = sample_parser();

    parser.load_input(lex("-!5").expect("lexes"));
    assert_eq!(
        parser.expression(0),
        Ok(AST::Prefix(
            TokenKind::Hyphen,
            Box::new(AST::Prefix(TokenKind::Bang, Box::new(AST::Value(5)))),
        ))
    );

    parser.load_input(lex("!-5").expect("lexes"));
    assert_eq!(
        parser.expression(0),
        Ok(AST::Prefix(
            TokenKind::Bang,
            Box::new(AST::Prefix(TokenKind::Hyphen, Box::new(AST::Value(5)))),
        ))
    );
}

#[test]
fn prefix_plus_wraps_its_operand() {
    let mut parser = sample_parser();
    parser.load_input(lex("+5").expect("lexes"));
    assert_eq!(
        parser.expression(0),
        Ok(AST::Prefix(TokenKind::Plus, Box::new(AST::Value(5))))
    );
}

#[test]
fn trailing_token_is_left_unconsumed() {
    let mut parser = sample_parser();
    parser.load_input(lex("5 3").expect("lexes"));
    assert_eq!(parser.expression(0), Ok(AST::Value(5)));
    assert_eq!(parser.index, 1);
    assert_eq!(parser.tokens.len() - parser.index, 1);
}

#[test]
fn operator_without_infix_rule_is_left_unconsumed() {
    let mut parser = sample_parser();
    parser.load_input(lex("2*3").expect("lexes"));
    assert_eq!(parser.expression(0), Ok(AST::Value(2)));
    assert_eq!(parser.tokens.len() - parser.index, 2);
}

#[test]
fn missing_prefix_rule_is_reported() {
    let mut parser = sample_parser();
    parser.load_input(vec![Token::Op(TokenKind::Times)]);
    assert_eq!(
        parser.expression(0),
        Err(ParserError::NoPrefixRule(TokenKind::Times))
    );
}

#[test]
fn end_of_stream_on_empty_input() {
    let mut parser = sample_parser();
    parser.load_input(vec![]);
    assert_eq!(parser.expression(0), Err(ParserError::EndOfStream));
}

#[test]
fn end_of_stream_on_missing_right_operand() {
    let mut parser = sample_parser();
    parser.load_input(lex("1+").expect("lexes"));
    assert_eq!(parser.expression(0), Err(ParserError::EndOfStream));
}

#[test]
fn literal_rule_defends_against_operator_tokens() {
    let mut parser = sample_parser();
    parser.register_prefix(TokenKind::Times, PrefixRule::new(PrefixAction::LiteralValue));
    parser.load_input(vec![Token::Op(TokenKind::Times)]);
    assert_eq!(
        parser.expression(0),
        Err(ParserError::InvalidRule(TokenKind::Times, TokenKind::Value))
    );
}

#[test]
fn climbing_stops_when_precedence_is_not_exceeded() {
    // The sample infix `+` rule has precedence 2: a minimum of 2 must stop
    // before the operator (strict comparison), a minimum of 1 must consume it.
    let mut parser = sample_parser();
    parser.load_input(lex("1+2").expect("lexes"));
    assert_eq!(parser.expression(2), Ok(AST::Value(1)));
    assert_eq!(parser.index, 1);

    parser.load_input(lex("1+2").expect("lexes"));
    assert_eq!(
        parser.expression(1),
        Ok(AST::Infix(
            TokenKind::Plus,
            Box::new(AST::Value(1)),
            Box::new(AST::Value(2)),
        ))
    );
    assert_eq!(parser.index, 3);
}

#[test]
fn last_registration_wins() {
    let mut parser = sample_parser();
    parser.register_prefix(TokenKind::Times, PrefixRule::generic(10));
    parser.register_prefix(TokenKind::Times, PrefixRule::new(PrefixAction::LiteralValue));
    parser.load_input(vec![Token::Op(TokenKind::Times), Token::Digit(5)]);
    assert_eq!(
        parser.expression(0),
        Err(ParserError::InvalidRule(TokenKind::Times, TokenKind::Value))
    );
}

#[test]
fn infix_rule_can_chain_left_associatively() {
    // A grammar whose infix `+` restarts the right side at its own
    // precedence folds operators to the left instead.
    let mut parser = sample_parser();
    parser.register_infix(TokenKind::Plus, InfixRule::new(InfixAction::Binary(2), 2));
    parser.load_input(lex("1+2+3").expect("lexes"));
    assert_eq!(
        parser.expression(0),
        Ok(AST::Infix(
            TokenKind::Plus,
            Box::new(AST::Infix(
                TokenKind::Plus,
                Box::new(AST::Value(1)),
                Box::new(AST::Value(2)),
            )),
            Box::new(AST::Value(3)),
        ))
    );
}

#[test]
fn engine_is_reusable_across_inputs() {
    let mut parser = sample_parser();
    parser.load_input(lex("1+2").expect("lexes"));
    assert_eq!(
        parser.expression(0),
        Ok(AST::Infix(
            TokenKind::Plus,
            Box::new(AST::Value(1)),
            Box::new(AST::Value(2)),
        ))
    );
    parser.load_input(lex("3").expect("lexes"));
    assert_eq!(parser.expression(0), Ok(AST::Value(3)));
    assert_eq!(parser.index, 1);
}

#[test]
fn consume_and_look_ahead_move_the_cursor_as_documented() {
    let mut parser = sample_parser();
    parser.load_input(vec![Token::Digit(7)]);
    assert_eq!(parser.look_ahead(), Ok(Token::Digit(7)));
    assert_eq!(parser.index, 0);
    assert_eq!(parser.consume(), Ok(Token::Digit(7)));
    assert_eq!(parser.index, 1);
    assert_eq!(parser.consume(), Err(ParserError::EndOfStream));
    assert_eq!(parser.look_ahead(), Err(ParserError::EndOfStream));
}

#[test]
fn rule_constructors_build_what_parse_uses() {
    let mut parser = sample_parser();
    let rule = PrefixRule::generic(5);
    parser.load_input(vec![Token::Digit(4)]);
    assert_eq!(
        rule.parse(&mut parser, Token::Op(TokenKind::Bang)),
        Ok(AST::Prefix(TokenKind::Bang, Box::new(AST::Value(4))))
    );

    let infix = InfixRule::new(InfixAction::Binary(0), 2);
    parser.load_input(vec![Token::Digit(9)]);
    assert_eq!(
        infix.parse(&mut parser, AST::Value(1), Token::Op(TokenKind::Plus)),
        Ok(AST::Infix(
            TokenKind::Plus,
            Box::new(AST::Value(1)),
            Box::new(AST::Value(9)),
        ))
    );
}

#[test]
fn ast_clone_is_deep_equality() {
    let ast = AST::Infix(
        TokenKind::Plus,
        Box::new(AST::Prefix(TokenKind::Hyphen, Box::new(AST::Value(2)))),
        Box::new(AST::Value(3)),
    );
    assert_eq!(ast.clone(), ast);
}
