use lib::lexer::{lexer, lexer_with_diagnostics};
use lib::token::Token;

fn ident(s: &str) -> Token {
    Token::Identifier(s.to_string())
}

fn lex_all(code: &str) -> (Vec<Token>, Vec<String>) {
    let mut diagnostics = Vec::new();
    let tokens = lexer_with_diagnostics(code, &mut diagnostics);
    (tokens, diagnostics)
}

#[test]
fn lexes_a_let_statement() {
    assert_eq!(
        lexer("let x = 5"),
        vec![Token::Let, ident("x"), Token::Assign, Token::Number(5)]
    );
}

#[test]
fn lexes_keywords() {
    assert_eq!(
        lexer("print add subtract multiply divide mod let if else"),
        vec![
            Token::Print,
            Token::Add,
            Token::Subtract,
            Token::Multiply,
            Token::Divide,
            Token::Modulus,
            Token::Let,
            Token::If,
            Token::Else
        ]
    );
}

#[test]
fn lexes_operators_with_and_without_equals() {
    assert_eq!(
        lexer("= == < <= > >= != { }"),
        vec![
            Token::Assign,
            Token::Equals,
            Token::LessThan,
            Token::LessThanOrEqual,
            Token::GreaterThan,
            Token::GreaterThanOrEqual,
            Token::NotEquals,
            Token::LeftBrace,
            Token::RightBrace
        ]
    );
    assert_eq!(lexer("a<=b"), vec![ident("a"), Token::LessThanOrEqual, ident("b")]);
    assert_eq!(lexer("==="), vec![Token::Equals, Token::Assign]);
}

#[test]
fn lexes_strings() {
    assert_eq!(
        lexer("print \"hello world\""),
        vec![Token::Print, Token::String("hello world".to_string())]
    );
    assert_eq!(lexer("\"abc"), vec![Token::String("abc".to_string())]);
    assert_eq!(lexer("\"\""), vec![Token::String(String::new())]);
    assert_eq!(
        lexer("x\"y\"z"),
        vec![ident("x"), Token::String("y".to_string()), ident("z")]
    );
}

#[test]
fn lexes_numbers_and_identifiers() {
    assert_eq!(
        lexer("-5 +7 0042 2147483648 abc_1 é"),
        vec![
            Token::Number(-5),
            Token::Number(7),
            Token::Number(42),
            ident("2147483648"),
            ident("abc_1"),
            ident("é")
        ]
    );
}

#[test]
fn separators_are_skipped() {
    assert_eq!(lexer(" \t\r\n let\n\n"), vec![Token::Let]);
    assert_eq!(lexer(""), Vec::<Token>::new());
}

#[test]
fn lone_bang_is_reported() {
    let (tokens, diagnostics) = lex_all("a ! b");
    assert_eq!(tokens, vec![ident("a"), ident("b")]);
    assert_eq!(diagnostics, vec!["Unexpected character: !".to_string()]);
}

#[test]
fn unknown_word_is_reported() {
    let (tokens, diagnostics) = lex_all("let a.b = 3");
    assert_eq!(tokens, vec![Token::Let, Token::Assign, Token::Number(3)]);
    assert_eq!(diagnostics, vec!["Unknown token: a.b".to_string()]);
}

#[test]
fn every_whitespace_separates() {
    let (tokens, diagnostics) = lex_all("x ! \u{a0}y\u{c}z\u{3000}\u{2028}let");
    assert_eq!(tokens, vec![ident("x"), ident("y"), ident("z"), Token::Let]);
    assert_eq!(diagnostics, vec!["Unexpected character: !".to_string()]);
    assert_eq!(lexer("\u{c}"), Vec::<Token>::new());
    assert_eq!(lexer("a\u{a0}b"), vec![ident("a"), ident("b")]);
    assert_eq!(lexer("a\u{85}=\u{b}5"), vec![ident("a"), Token::Assign, Token::Number(5)]);
}

#[test]
fn whitespace_inside_a_string_is_kept() {
    assert_eq!(lexer("\"a\u{a0}b\""), vec![Token::String("a\u{a0}b".to_string())]);
}

#[test]
fn whitespace_is_the_white_space_property() {
    let listed = |u: u32| {
        (0x09..=0x0d).contains(&u)
            || u == 0x20
            || u == 0x85
            || u == 0xa0
            || u == 0x1680
            || (0x2000..=0x200a).contains(&u)
            || u == 0x2028
            || u == 0x2029
            || u == 0x202f
            || u == 0x205f
            || u == 0x3000
    };
    for u in 0..=0x10ffffu32 {
        if let Some(c) = char::from_u32(u) {
            assert_eq!(c.is_whitespace(), listed(u), "code point {:x}", u);
            let text = format!("a{}b", c);
            let separated = lexer(&text) == vec![ident("a"), ident("b")];
            if listed(u) {
                assert!(separated, "code point {:x}", u);
            }
        }
    }
}

#[test]
fn appended_diagnostics_keep_earlier_ones() {
    let mut diagnostics = vec!["earlier".to_string()];
    let tokens = lexer_with_diagnostics("!", &mut diagnostics);
    assert_eq!(tokens, vec![]);
    assert_eq!(diagnostics, vec!["earlier".to_string(), "Unexpected character: !".to_string()]);
}
