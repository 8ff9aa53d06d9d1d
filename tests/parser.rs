use rbfc::lexer::{Token, TokenType};
use rbfc::parser::{Parser, ParserError};

fn tok(token_type: TokenType, size: Option<usize>, loc: usize) -> Token {
    Token { token_type, size, loc }
}

#[test]
fn test_parser() {
    let input = String::from("++[->+<]");
    let mut parser = Parser::new(input);
    let result = parser.parse().unwrap();
    assert_eq!(
        result,
        vec![
            Token { token_type: TokenType::Plus, size: Some(2), loc: 0 },
            Token { token_type: TokenType::OpenBracket, size: Some(7), loc: 2 },
            Token { token_type: TokenType::Minus, size: Some(1), loc: 3 },
            Token { token_type: TokenType::ShiftRight, size: Some(1), loc: 4 },
            Token { token_type: TokenType::Plus, size: Some(1), loc: 5 },
            Token { token_type: TokenType::ShiftLeft, size: Some(1), loc: 6 },
            Token { token_type: TokenType::CloseBracket, size: Some(1), loc: 7 },
        ]
    );
}

#[test]
fn test_parser_unmatched_bracket() {
    let input = String::from("++[->+<");
    let mut parser = Parser::new(input);
    let result = parser.parse();
    assert_eq!(result, Err(ParserError::UnexpectedEof(6, 1)));
}

#[test]
fn test_parser_unexpected_eof() {
    let input = String::from("++->+<]");
    let mut parser = Parser::new(input);
    let result = parser.parse();
    assert_eq!(result, Err(ParserError::UnmatchedBracket(5)));
}

#[test]
fn comments_only_parse_to_nothing() {
    let mut parser = Parser::new(String::from("just words here\n"));
    assert_eq!(parser.parse(), Ok(vec![]));
}

#[test]
fn nested_loops_resolve() {
    let mut parser = Parser::new(String::from("[[]+]"));
    let ops = parser.parse().unwrap();
    assert_eq!(
        ops,
        vec![
            tok(TokenType::OpenBracket, Some(5), 0),
            tok(TokenType::OpenBracket, Some(3), 1),
            tok(TokenType::CloseBracket, Some(1), 2),
            tok(TokenType::Plus, Some(1), 3),
            tok(TokenType::CloseBracket, Some(0), 4),
        ]
    );
}

#[test]
fn open_target_is_one_past_its_close() {
    let mut parser = Parser::new(String::from("+[>[-]<[.]]."));
    let ops = parser.parse().unwrap();
    for (j, op) in ops.iter().enumerate() {
        if op.token_type == TokenType::OpenBracket {
            let target = op.size.unwrap();
            let close = &ops[target - 1];
            assert_eq!(close.token_type, TokenType::CloseBracket);
            assert_eq!(close.size, Some(j));
        }
    }
}

#[test]
fn first_unmatched_close_is_reported() {
    let mut parser = Parser::new(String::from("+]]"));
    assert_eq!(parser.parse(), Err(ParserError::UnmatchedBracket(1)));
    let mut parser = Parser::new(String::from("[]]["));
    assert_eq!(parser.parse(), Err(ParserError::UnmatchedBracket(2)));
}

#[test]
fn innermost_open_is_reported() {
    let mut parser = Parser::new(String::from("+++["));
    assert_eq!(parser.parse(), Err(ParserError::UnexpectedEof(2, 1)));
    let mut parser = Parser::new(String::from("[[[]+"));
    assert_eq!(parser.parse(), Err(ParserError::UnexpectedEof(5, 1)));
}
