use component_compiler::lex::{lex_spanned, Spanned, Token};

#[test]
fn all() {
    let tokens = Token::lex("<>=+-*/(){}[],.;:!#a 1");
    assert_eq!(
        tokens,
        vec![
            Token::LessThan,
            Token::GreaterThan,
            Token::Equal,
            Token::Plus,
            Token::Dash,
            Token::Star,
            Token::Slash,
            Token::LeftParen,
            Token::RightParen,
            Token::LeftBrace,
            Token::RightBrace,
            Token::LeftBracket,
            Token::RightBracket,
            Token::Comma,
            Token::Dot,
            Token::Eol,
            Token::Colon,
            Token::Bang,
            Token::Hash,
            Token::Ident("a".to_string()),
            Token::Number,
        ]
    );
}

#[test]
fn whitespace() {
    let tokens = Token::lex("<div  ></div>");
    assert_eq!(
        tokens,
        vec![
            Token::LessThan,
            Token::Ident("div".to_string()),
            Token::GreaterThan,
            Token::LessThan,
            Token::Slash,
            Token::Ident("div".to_string()),
            Token::GreaterThan,
        ]
    );
}

#[test]
fn open_elem() {
    let tokens = Token::lex("<a>");
    let mut p = tokens.iter().peekable();
    let t = *p.peek().unwrap();
    println!("{:?}", t);
    p.next();
    let t = *p.peek().unwrap();
    println!("{:?}", t);
    match t {
        Token::Ident(name) => {
            println!("matched ident: {}", name);
        }
        _ => panic!("expected ident"),
    }
}

#[test]
fn spans_count_characters() {
    let tokens = lex_spanned("ab 12\n$x");
    assert_eq!(
        tokens,
        vec![
            Spanned { token: Token::Ident("ab".to_string()), start: 0, end: 2 },
            Spanned { token: Token::Number, start: 3, end: 5 },
            Spanned { token: Token::Eol, start: 5, end: 6 },
            Spanned { token: Token::Error, start: 6, end: 7 },
            Spanned { token: Token::Ident("x".to_string()), start: 7, end: 8 },
        ]
    );
}

#[test]
fn identifiers_take_digits_and_underscores() {
    let tokens = Token::lex("_a1 9b");
    assert_eq!(
        tokens,
        vec![Token::Ident("_a1".to_string()), Token::Number, Token::Ident("b".to_string())]
    );
}

#[test]
fn non_ascii_is_one_error_token() {
    let tokens = lex_spanned("é=");
    assert_eq!(
        tokens,
        vec![
            Spanned { token: Token::Error, start: 0, end: 1 },
            Spanned { token: Token::Equal, start: 1, end: 2 },
        ]
    );
}

#[test]
fn empty_source_has_no_tokens() {
    assert!(Token::lex("").is_empty());
    assert!(Token::lex(" \t ").is_empty());
}
