use expr_lang::lexer::{Lexer, Token};

/// All tokens of `src` up to the end, or the first error.
fn tokens(src: &str) -> Result<Vec<Token>, String> {
    let mut lexer = Lexer::new(src);
    let mut out = Vec::new();
    loop {
        let t = lexer.next_token()?;
        if t == Token::Eof {
            return Ok(out);
        }
        out.push(t);
    }
}

fn num(s: &str) -> Token {
    Token::Number(s.to_string())
}

fn ident(s: &str) -> Token {
    Token::Ident(s.to_string())
}

#[test]
fn test_undefined_character() {
    let result = tokens("3 + {");
    assert!(result.is_err());
    let err = result.unwrap_err();
    assert!(err.contains("Unexpected character: {"));
    assert!(tokens("@").is_err());
    assert!(tokens("3 $ 4").is_err());
}

#[test]
fn test_unexpected_character_message_exact() {
    assert_eq!(tokens("3 + {"), Err("Unexpected character: {".to_string()));
    assert_eq!(tokens("  é"), Ok(vec![ident("é")]));
    assert_eq!(tokens("€"), Err("Unexpected character: €".to_string()));
    assert_eq!(tokens("aé1 x٣"), Ok(vec![ident("aé1"), ident("x٣")]));
    assert_eq!(tokens("a€"), Err("Unexpected character: €".to_string()));
}

#[test]
fn test_lone_dot_lexing() {
    assert_eq!(tokens("."), Err("Unexpected character: .".to_string()));
    assert!(tokens(". + 1").is_err());
    assert!(tokens("3 + .").is_err());
    assert!(tokens(".a").is_err());
}

#[test]
fn test_leading_dot_lexes_as_number() {
    assert_eq!(tokens(".5"), Ok(vec![num(".5")]));
    assert_eq!(tokens(".25 * 4"), Ok(vec![num(".25"), Token::Star, num("4")]));
    assert_eq!(".5".parse::<f64>().unwrap(), 0.5);
}

#[test]
fn test_number_and_range() {
    assert_eq!(tokens("2.5 * 4.8"), Ok(vec![num("2.5"), Token::Star, num("4.8")]));
    assert_eq!(tokens("1..10"), Ok(vec![num("1"), Token::DotDot, num("10")]));
    assert_eq!(tokens("1.2.3"), Ok(vec![num("1.2"), num(".3")]));
    assert_eq!(tokens("7."), Err("Unexpected character: .".to_string()));
}

#[test]
fn test_operators() {
    assert_eq!(
        tokens("< <= > >= == != && || ! = : , ; ( ) [ ] + - * /"),
        Ok(vec![
            Token::Less,
            Token::LessEqual,
            Token::Greater,
            Token::GreaterEqual,
            Token::Equal,
            Token::NotEqual,
            Token::And,
            Token::Or,
            Token::Not,
            Token::Assign,
            Token::Colon,
            Token::Comma,
            Token::Semicolon,
            Token::LParen,
            Token::RParen,
            Token::LBracket,
            Token::RBracket,
            Token::Plus,
            Token::Minus,
            Token::Star,
            Token::Slash,
        ])
    );
    assert!(tokens("&").is_err());
    assert!(tokens("|").is_err());
}

#[test]
fn test_keywords_and_identifiers() {
    assert_eq!(
        tokens("if then else elif while do for in step break continue fn let x_1 _y"),
        Ok(vec![
            Token::If,
            Token::Then,
            Token::Else,
            Token::Elif,
            Token::While,
            Token::Do,
            Token::For,
            Token::In,
            Token::Step,
            Token::Break,
            Token::Continue,
            Token::Fn,
            ident("let"),
            ident("x_1"),
            ident("_y"),
        ])
    );
    assert_eq!(tokens("iffy"), Ok(vec![ident("iffy")]));
}

#[test]
fn test_string_escapes_lexing() {
    assert_eq!(
        tokens("\"hello\\nworld\""),
        Ok(vec![Token::String("hello\nworld".to_string())])
    );
    assert_eq!(
        tokens("\"tab\\tbetween\""),
        Ok(vec![Token::String("tab\tbetween".to_string())])
    );
    assert_eq!(
        tokens("\"quote: \\\"inside\\\"\""),
        Ok(vec![Token::String("quote: \"inside\"".to_string())])
    );
    assert_eq!(tokens("\"a\\\\b\\r\""), Ok(vec![Token::String("a\\b\r".to_string())]));
    assert_eq!(tokens("\"\\q\""), Ok(vec![Token::String("q".to_string())]));
    assert_eq!(tokens("\"\""), Ok(vec![Token::String(String::new())]));
}

#[test]
fn test_unterminated_string() {
    assert_eq!(tokens("\"abc"), Ok(vec![Token::String("abc".to_string())]));
    assert_eq!(tokens("\"abc\\"), Ok(vec![Token::String("abc\\".to_string())]));
}

#[test]
fn test_comments_lexing() {
    assert_eq!(tokens("3 + 4  # comment\n"), Ok(vec![num("3"), Token::Plus, num("4")]));
    assert_eq!(tokens("# only comment\n 5"), Ok(vec![num("5")]));
    assert_eq!(tokens("3 /* comment */ + 4"), Ok(vec![num("3"), Token::Plus, num("4")]));
    assert_eq!(
        tokens("3 /* outer /* inner */ outer */ + 4"),
        Ok(vec![num("3"), Token::Plus, num("4")])
    );
    assert_eq!(tokens("1 /* never closed"), Ok(vec![num("1")]));
    assert_eq!(tokens("6 / 3"), Ok(vec![num("6"), Token::Slash, num("3")]));
}

#[test]
fn test_eof_repeats() {
    let mut lexer = Lexer::new("x");
    assert_eq!(lexer.next_token(), Ok(ident("x")));
    assert_eq!(lexer.next_token(), Ok(Token::Eof));
    assert_eq!(lexer.next_token(), Ok(Token::Eof));
}

#[test]
fn test_current_position() {
    let mut lexer = Lexer::new("ab\ncd ef");
    let p = lexer.current_position();
    assert_eq!((p.line, p.column, p.offset), (1, 1, 0));
    lexer.next_token().unwrap();
    let p = lexer.current_position();
    assert_eq!((p.line, p.column, p.offset), (1, 3, 2));
    lexer.next_token().unwrap();
    let p = lexer.current_position();
    assert_eq!((p.line, p.column, p.offset), (2, 3, 5));
    lexer.next_token().unwrap();
    let p = lexer.current_position();
    assert_eq!((p.line, p.column, p.offset), (2, 6, 8));
}

#[test]
fn test_exponent_numbers() {
    assert_eq!(tokens("2e5"), Ok(vec![num("2e5")]));
    assert_eq!(tokens("-2e5"), Ok(vec![Token::Minus, num("2e5")]));
    assert_eq!(tokens("1.5E-3 + .5e+2"), Ok(vec![num("1.5E-3"), Token::Plus, num(".5e+2")]));
    assert_eq!(tokens("2e"), Ok(vec![num("2"), ident("e")]));
    assert_eq!(tokens("2e+"), Ok(vec![num("2"), ident("e"), Token::Plus]));
    assert_eq!(tokens("3ex"), Ok(vec![num("3"), ident("ex")]));
    assert_eq!(tokens("4e2x"), Ok(vec![num("4e2"), ident("x")]));
    assert_eq!(tokens("1e2.5"), Ok(vec![num("1e2"), num(".5")]));
    assert_eq!("-2e5".parse::<f64>().unwrap(), -200000.0);
    assert_eq!("1.5E-3".parse::<f64>().unwrap(), 0.0015);
}

#[test]
fn test_position_offset_counts_bytes() {
    let mut lexer = Lexer::new("é + 1");
    lexer.next_token().unwrap();
    let p = lexer.current_position();
    assert_eq!((p.line, p.column, p.offset), (1, 2, 2));
    let mut lexer = Lexer::new("\"é\" 京\n€");
    lexer.next_token().unwrap();
    let p = lexer.current_position();
    assert_eq!((p.line, p.column, p.offset), (1, 4, 4));
    lexer.next_token().unwrap();
    let p = lexer.current_position();
    assert_eq!((p.line, p.column, p.offset), (1, 6, 8));
    assert!(lexer.next_token().is_err());
}
