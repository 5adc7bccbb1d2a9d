//! The token stream and the parser's failures, observed from outside.

use exprlang::lexer::{Lexer, LexError};
use exprlang::parser::{parse, ParseError};
use exprlang::token::Token;

fn parse_str(src: &str) -> Result<exprlang::ast::AstNode, ParseError> {
    let mut lexer = Lexer::new(src);
    parse(&mut lexer)
}

#[test]
fn peeking_does_not_consume() {
    let mut lexer = Lexer::new("1 + 2");
    assert_eq!(lexer.peek_token(), Some(Ok(Token::Number(1.0f64.to_bits()))));
    assert_eq!(lexer.peek_two_token(), Some(Ok(Token::Plus)));
    assert_eq!(lexer.peek_token(), Some(Ok(Token::Number(1.0f64.to_bits()))));
}

#[test]
fn next_walks_the_whole_stream() {
    let mut lexer = Lexer::new("1+2");
    assert_eq!(lexer.next_token(), Some(Ok(Token::Number(1.0f64.to_bits()))));
    assert_eq!(lexer.next_token(), Some(Ok(Token::Plus)));
    assert_eq!(lexer.next_token(), Some(Ok(Token::Number(2.0f64.to_bits()))));
    assert_eq!(lexer.next_token(), None);
}

#[test]
fn flatten_peeks_hide_failures() {
    let mut lexer = Lexer::new("~");
    assert_eq!(lexer.peek_token(), Some(Err(LexError { pos: 0, ch: '~' })));
    assert_eq!(lexer.peek_token_flatten(), None);
    assert_eq!(lexer.peek_two_token_flatten(), None);
}

#[test]
fn keywords_win_over_identifiers_of_the_same_spelling() {
    let mut lexer = Lexer::new("and andx");
    assert_eq!(lexer.next_token(), Some(Ok(Token::And)));
    assert_eq!(
        lexer.next_token(),
        Some(Ok(Token::Identifier(String::from("andx"))))
    );
}

#[test]
fn boolean_and_nil_literals_are_their_own_tokens() {
    let mut lexer = Lexer::new("true false nil");
    assert_eq!(lexer.next_token(), Some(Ok(Token::Bool(true))));
    assert_eq!(lexer.next_token(), Some(Ok(Token::Bool(false))));
    assert_eq!(lexer.next_token(), Some(Ok(Token::Nil)));
}

#[test]
fn longer_operators_win_over_their_prefixes() {
    let mut lexer = Lexer::new("== = -> - <= < >= > !=");
    let expected = [
        Token::EqualEqual,
        Token::Equal,
        Token::RThinArr,
        Token::Minus,
        Token::LessEqual,
        Token::Less,
        Token::GreaterEqual,
        Token::Greater,
        Token::BangEqual,
    ];
    for t in expected {
        assert_eq!(lexer.next_token(), Some(Ok(t)));
    }
    assert_eq!(lexer.next_token(), None);
}

#[test]
fn string_tokens_keep_their_raw_text() {
    let mut lexer = Lexer::new("\"a b\"");
    assert_eq!(
        lexer.next_token(),
        Some(Ok(Token::Str(String::from("\"a b\""))))
    );
}

#[test]
fn a_doubled_quote_stays_inside_the_string() {
    let mut lexer = Lexer::new("\"a\"\"b\"");
    assert_eq!(
        lexer.next_token(),
        Some(Ok(Token::Str(String::from("\"a\"\"b\""))))
    );
    assert_eq!(lexer.next_token(), None);
}

#[test]
fn a_backslash_escapes_the_next_character() {
    let mut lexer = Lexer::new("\"a\\\"b\"");
    assert_eq!(
        lexer.next_token(),
        Some(Ok(Token::Str(String::from("\"a\\\"b\""))))
    );
}

#[test]
fn an_unterminated_string_is_a_lexical_failure() {
    let mut lexer = Lexer::new("\"abc");
    assert_eq!(lexer.next_token(), Some(Err(LexError { pos: 0, ch: '"' })));
}

#[test]
fn a_lone_bang_is_a_lexical_failure() {
    assert_eq!(
        parse_str("1 ! 2"),
        Err(ParseError::Lex(LexError { pos: 2, ch: '!' }))
    );
}

#[test]
fn an_unmatched_character_fails_at_its_position() {
    assert_eq!(
        parse_str("1 ~ 2"),
        Err(ParseError::Lex(LexError { pos: 2, ch: '~' }))
    );
}

#[test]
fn a_conditional_needs_its_else() {
    assert_eq!(
        parse_str("if true then 1 end"),
        Err(ParseError::UnexpectedToken {
            expected: vec![Token::Else],
            got: Token::End,
        })
    );
}

#[test]
fn a_dangling_operator_hits_the_end_of_input() {
    assert_eq!(parse_str("1 +"), Err(ParseError::UnexpectedEnd));
}

#[test]
fn empty_input_hits_the_end_of_input() {
    assert_eq!(parse_str(""), Err(ParseError::UnexpectedEnd));
}

#[test]
fn no_primary_starts_with_a_keyword() {
    assert_eq!(
        parse_str("then"),
        Err(ParseError::InvalidPrimary { got: Token::Then })
    );
}

#[test]
fn the_not_keyword_is_tokenized_but_unwired() {
    assert_eq!(
        parse_str("not true"),
        Err(ParseError::InvalidPrimary { got: Token::Not })
    );
}

#[test]
fn the_do_keyword_is_tokenized_but_unwired() {
    assert_eq!(
        parse_str("do 1 end"),
        Err(ParseError::InvalidPrimary { got: Token::Do })
    );
}

#[test]
fn an_assignment_cannot_guard_a_when_arm() {
    assert_eq!(
        parse_str("when true -> 1, x = 2 -> 3 end"),
        Err(ParseError::UnexpectedToken {
            expected: vec![Token::Comma, Token::End],
            got: Token::RThinArr,
        })
    );
}

#[test]
fn a_when_needs_its_arrow() {
    assert_eq!(
        parse_str("when true 1 end"),
        Err(ParseError::UnexpectedToken {
            expected: vec![Token::RThinArr],
            got: Token::Number(1.0f64.to_bits()),
        })
    );
}

#[test]
fn function_parameters_need_the_arrow() {
    assert_eq!(
        parse_str("fn a b -> a"),
        Err(ParseError::UnexpectedToken {
            expected: vec![Token::Comma, Token::RThinArr],
            got: Token::Identifier(String::from("b")),
        })
    );
}

#[test]
fn an_equals_sign_demands_an_identifier_before_it() {
    assert_eq!(
        parse_str("1 = 2"),
        Err(ParseError::ExpectedIdentifier {
            got: Token::Number(1.0f64.to_bits()),
        })
    );
}

#[test]
fn trailing_tokens_after_a_block_are_left_alone() {
    assert!(parse_str("1 2").is_ok());
}

#[test]
fn whitespace_separates_tokens() {
    let mut lexer = Lexer::new(" \t\n1\r\n2 ");
    assert_eq!(lexer.next_token(), Some(Ok(Token::Number(1.0f64.to_bits()))));
    assert_eq!(lexer.next_token(), Some(Ok(Token::Number(2.0f64.to_bits()))));
    assert_eq!(lexer.next_token(), None);
}

#[test]
fn maximal_digit_runs_form_one_number() {
    let mut lexer = Lexer::new("123 45");
    assert_eq!(
        lexer.next_token(),
        Some(Ok(Token::Number(123.0f64.to_bits())))
    );
    assert_eq!(lexer.next_token(), Some(Ok(Token::Number(45.0f64.to_bits()))));
}
