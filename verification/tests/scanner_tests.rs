use bea::scanner::{get_char_substr, is_alpha, is_alphanumeric, is_digit, keyword_type, Scanner};
use bea::tokens::{Literal, TokenType};

fn kinds(source: &str) -> Vec<TokenType> {
    Scanner::scan(source.to_string()).iter().map(|t| t.token_type).collect()
}

#[test]
fn scans_a_declaration() {
    assert_eq!(
        kinds("var x = 1;"),
        vec![TokenType::Var, TokenType::Identifier, TokenType::Equal, TokenType::Num, TokenType::Semicolon, TokenType::Eof]
    );
}

#[test]
fn scans_two_character_operators() {
    assert_eq!(
        kinds("!= == <= >= < > ! ="),
        vec![
            TokenType::BangEqual,
            TokenType::EqualEqual,
            TokenType::LessEqual,
            TokenType::GreaterEqual,
            TokenType::Less,
            TokenType::Greater,
            TokenType::Bang,
            TokenType::Equal,
            TokenType::Eof
        ]
    );
}

#[test]
fn an_empty_source_has_no_tokens() {
    assert!(Scanner::scan(String::new()).is_empty());
}

#[test]
fn the_last_token_is_the_end() {
    let tokens = Scanner::scan("a".to_string());
    assert_eq!(tokens.last().unwrap().token_type, TokenType::Eof);
    assert_eq!(tokens.last().unwrap().lexeme, "");
}

#[test]
fn literals_carry_their_text() {
    let tokens = Scanner::scan("12.5 \"hi\"".to_string());
    assert!(matches!(&tokens[0].literal, Literal::Num(d) if d == "12.5"));
    assert!(matches!(&tokens[1].literal, Literal::Str(s) if s == "hi"));
}

#[test]
fn keywords() {
    assert_eq!(keyword_type(&"while".to_string()), Some(TokenType::While));
    assert_eq!(keyword_type(&"fun".to_string()), Some(TokenType::Fun));
    assert_eq!(keyword_type(&"class".to_string()), Some(TokenType::And));
    assert_eq!(keyword_type(&"print".to_string()), None);
    assert_eq!(keyword_type(&"whale".to_string()), None);
}

#[test]
fn character_classes() {
    assert!(is_alpha('a') && is_alpha('Z') && is_alpha('_'));
    assert!(!is_alpha('1'));
    assert!(is_digit('7') && !is_digit('x'));
    assert!(is_alphanumeric('x') && is_alphanumeric('0') && !is_alphanumeric('-'));
}

#[test]
fn substrings() {
    assert_eq!(get_char_substr(&"hello".to_string(), 1, 3), "ell");
    assert_eq!(get_char_substr(&"hello".to_string(), 0, 0), "h");
}

#[test]
fn unknown_characters_are_reported() {
    let mut scanner = Scanner::new("a @".to_string());
    scanner.start();
    assert_eq!(scanner.errors.len(), 1);
    assert_eq!(scanner.tokens.last().unwrap().token_type, TokenType::Eof);
}
