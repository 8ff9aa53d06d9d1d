use rbfc::lexer::{Lexer, Token, TokenType};

#[test]
fn test_next_token() {
    let mut lexer = Lexer::new(String::from("+++"));
    assert_eq!(
        lexer.next_token(),
        Token {
            token_type: TokenType::Plus,
            size: Some(3),
            loc: 0
        }
    );

    let mut lexer = Lexer::new(String::from("++>"));
    assert_eq!(
        lexer.next_token(),
        Token {
            token_type: TokenType::Plus,
            size: Some(2),
            loc: 0
        }
    );
    assert_eq!(
        lexer.next_token(),
        Token {
            token_type: TokenType::ShiftRight,
            size: Some(1),
            loc: 2
        }
    );
}

#[test]
fn test_brackets() {
    let mut lexer = Lexer::new(String::from("["));
    assert_eq!(
        lexer.next_token(),
        Token {
            token_type: TokenType::OpenBracket,
            size: None,
            loc: 0
        }
    );

    let mut lexer = Lexer::new(String::from("]"));
    assert_eq!(
        lexer.next_token(),
        Token {
            token_type: TokenType::CloseBracket,
            size: None,
            loc: 0
        }
    );
}

#[test]
fn comments_only_give_the_end_token() {
    let mut lexer = Lexer::new(String::from("hello world 123 é"));
    let t = lexer.next_token();
    assert_eq!(t.token_type, TokenType::Eof);
    assert_eq!(t.size, None);
    assert_eq!(lexer.next_token().token_type, TokenType::Eof);
}

#[test]
fn empty_text_gives_the_end_token() {
    let mut lexer = Lexer::new(String::new());
    assert_eq!(lexer.next_token().token_type, TokenType::Eof);
}

#[test]
fn run_continues_across_comments() {
    let mut lexer = Lexer::new(String::from("a+ b+\n+c"));
    assert_eq!(
        lexer.next_token(),
        Token {
            token_type: TokenType::Plus,
            size: Some(3),
            loc: 1
        }
    );
    assert_eq!(lexer.next_token().token_type, TokenType::Eof);
}

#[test]
fn run_stops_at_another_symbol() {
    let mut lexer = Lexer::new(String::from("..,,,[]<<"));
    assert_eq!(lexer.next_token(), Token { token_type: TokenType::Dot, size: Some(2), loc: 0 });
    assert_eq!(lexer.next_token(), Token { token_type: TokenType::Comma, size: Some(3), loc: 2 });
    assert_eq!(lexer.next_token(), Token { token_type: TokenType::OpenBracket, size: None, loc: 5 });
    assert_eq!(lexer.next_token(), Token { token_type: TokenType::CloseBracket, size: None, loc: 6 });
    assert_eq!(lexer.next_token(), Token { token_type: TokenType::ShiftLeft, size: Some(2), loc: 7 });
    assert_eq!(lexer.next_token().token_type, TokenType::Eof);
}

#[test]
fn brackets_never_collapse() {
    let mut lexer = Lexer::new(String::from("[["));
    assert_eq!(lexer.next_token(), Token { token_type: TokenType::OpenBracket, size: None, loc: 0 });
    assert_eq!(lexer.next_token(), Token { token_type: TokenType::OpenBracket, size: None, loc: 1 });
}

#[test]
fn long_run_of_one_symbol() {
    let text = "-".repeat(1000);
    let mut lexer = Lexer::new(text);
    assert_eq!(lexer.next_token(), Token { token_type: TokenType::Minus, size: Some(1000), loc: 0 });
    assert_eq!(lexer.next_token().token_type, TokenType::Eof);
}

#[test]
fn is_token_maps_each_symbol() {
    assert_eq!(Token::is_token(&'<'), Some(TokenType::ShiftLeft));
    assert_eq!(Token::is_token(&'>'), Some(TokenType::ShiftRight));
    assert_eq!(Token::is_token(&'+'), Some(TokenType::Plus));
    assert_eq!(Token::is_token(&'-'), Some(TokenType::Minus));
    assert_eq!(Token::is_token(&'.'), Some(TokenType::Dot));
    assert_eq!(Token::is_token(&','), Some(TokenType::Comma));
    assert_eq!(Token::is_token(&'['), Some(TokenType::OpenBracket));
    assert_eq!(Token::is_token(&']'), Some(TokenType::CloseBracket));
    assert_eq!(Token::is_token(&'a'), None);
    assert_eq!(Token::is_token(&' '), None);
}
