use dlx_codegen::lexer::{scan_token, Lexer, Token};

/// A small program lexes into the expected token stream.
#[test]
fn lex_function_header() {
    let mut lexer = Lexer::new("fn main() { let x = 5 }");
    assert_eq!(lexer.next(), Some(Token::Fn));
    assert_eq!(lexer.next(), Some(Token::Name("main".to_string())));
    assert_eq!(lexer.next(), Some(Token::LeftParen));
    assert_eq!(lexer.next(), Some(Token::RightParen));
    assert_eq!(lexer.next(), Some(Token::LeftBrace));
    assert_eq!(lexer.next(), Some(Token::Let));
    assert_eq!(lexer.next(), Some(Token::Name("x".to_string())));
    assert_eq!(lexer.next(), Some(Token::Assignment));
    assert_eq!(lexer.next(), Some(Token::Num(5)));
    assert_eq!(lexer.next(), Some(Token::RightBrace));
    assert_eq!(lexer.next(), None);
}

/// Two-character operators take precedence over their one-character
/// prefixes.
#[test]
fn lex_compound_operators() {
    let mut lexer = Lexer::new("== += -= = + -");
    assert_eq!(lexer.next(), Some(Token::Equal));
    assert_eq!(lexer.next(), Some(Token::PlusEq));
    assert_eq!(lexer.next(), Some(Token::MinusEq));
    assert_eq!(lexer.next(), Some(Token::Assignment));
    assert_eq!(lexer.next(), Some(Token::Plus));
    assert_eq!(lexer.next(), Some(Token::Minus));
    assert_eq!(lexer.next(), None);
}

/// An operator at the very end of the input is still one token.
#[test]
fn lex_trailing_operator() {
    let mut lexer = Lexer::new("=");
    assert_eq!(lexer.next(), Some(Token::Assignment));
    assert_eq!(lexer.next(), None);
}

/// Keywords are distinguished from ordinary names.
#[test]
fn lex_keywords_and_names() {
    let mut lexer = Lexer::new("if for while loop else iffy");
    assert_eq!(lexer.next(), Some(Token::If));
    assert_eq!(lexer.next(), Some(Token::For));
    assert_eq!(lexer.next(), Some(Token::While));
    assert_eq!(lexer.next(), Some(Token::Loop));
    assert_eq!(lexer.next(), Some(Token::Else));
    assert_eq!(lexer.next(), Some(Token::Name("iffy".to_string())));
    assert_eq!(lexer.next(), None);
}

/// Multi-digit numbers are parsed to their decimal value.
#[test]
fn lex_number_value() {
    let mut lexer = Lexer::new("12345");
    assert_eq!(lexer.next(), Some(Token::Num(12345)));
    assert_eq!(lexer.next(), None);
}

/// The largest `u16` is still a valid number.
#[test]
fn lex_number_max() {
    let mut lexer = Lexer::new("65535");
    assert_eq!(lexer.next(), Some(Token::Num(65535)));
    assert_eq!(lexer.next(), None);
}

/// Surrounding whitespace is stripped before lexing.
#[test]
fn lex_trims_whitespace() {
    let mut lexer = Lexer::new("   \t\n  let  \n ");
    assert_eq!(lexer.next(), Some(Token::Let));
    assert_eq!(lexer.next(), None);
}

/// Empty input yields no tokens.
#[test]
fn lex_empty_input() {
    let mut lexer = Lexer::new("");
    assert_eq!(lexer.next(), None);
    let mut blank = Lexer::new("    ");
    assert_eq!(blank.next(), None);
}

/// Punctuation ends a token without consuming it.
#[test]
fn lex_punctuation_adjacent_to_name() {
    let mut lexer = Lexer::new("foo(bar)");
    assert_eq!(lexer.next(), Some(Token::Name("foo".to_string())));
    assert_eq!(lexer.next(), Some(Token::LeftParen));
    assert_eq!(lexer.next(), Some(Token::Name("bar".to_string())));
    assert_eq!(lexer.next(), Some(Token::RightParen));
    assert_eq!(lexer.next(), None);
}

/// `scan_token` returns the index of the first boundary character, or the
/// whole length when there is none.
#[test]
fn scan_token_finds_boundary() {
    assert_eq!(scan_token("ab cd"), 2);
    assert_eq!(scan_token("abc"), 3);
    assert_eq!(scan_token("x=1"), 1);
    assert_eq!(scan_token("(x"), 0);
    assert_eq!(scan_token(""), 0);
}
