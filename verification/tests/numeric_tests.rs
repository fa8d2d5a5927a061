use lib::numeric::{decimal_string, parse_i32};
use lib::token::{token_debug, Token};

fn chars(s: &str) -> Vec<char> {
    s.chars().collect()
}

#[test]
fn decimal_string_matches_display() {
    for n in [0, 7, -7, 10, -10, 1234567, i32::MAX, i32::MIN, -1, 100] {
        assert_eq!(decimal_string(n), n.to_string());
    }
}

#[test]
fn parse_i32_accepts_signed_decimal() {
    assert_eq!(parse_i32(&chars("42")), Some(42));
    assert_eq!(parse_i32(&chars("+42")), Some(42));
    assert_eq!(parse_i32(&chars("-42")), Some(-42));
    assert_eq!(parse_i32(&chars("-0")), Some(0));
    assert_eq!(parse_i32(&chars("007")), Some(7));
    assert_eq!(parse_i32(&chars("2147483647")), Some(i32::MAX));
    assert_eq!(parse_i32(&chars("-2147483648")), Some(i32::MIN));
}

#[test]
fn parse_i32_rejects_what_std_rejects() {
    for s in ["", "-", "+", "2147483648", "-2147483649", "12a", "a12", "1 2", "--1", "+-1", "99999999999999999999"] {
        assert_eq!(parse_i32(&chars(s)), s.parse::<i32>().ok(), "input {:?}", s);
        assert_eq!(parse_i32(&chars(s)), None);
    }
}

#[test]
fn parse_i32_agrees_with_std_on_many_inputs() {
    let inputs = ["0", "1", "-1", "+0", "000000000000000000001", "-000000000002147483648", "2147483646", "x"];
    for s in inputs {
        assert_eq!(parse_i32(&chars(s)), s.parse::<i32>().ok(), "input {:?}", s);
    }
}

#[test]
fn decimal_text_parses_back() {
    for n in [0, 1, -1, 55, -55, i32::MAX, i32::MIN, 1000000] {
        assert_eq!(parse_i32(&chars(&decimal_string(n))), Some(n));
    }
}

#[test]
fn token_debug_matches_derived_debug() {
    let tokens = vec![
        Token::Print,
        Token::Add,
        Token::Subtract,
        Token::Multiply,
        Token::Divide,
        Token::Modulus,
        Token::Let,
        Token::Assign,
        Token::Identifier("x_1".to_string()),
        Token::Identifier("héllo".to_string()),
        Token::Number(-12),
        Token::Number(i32::MIN),
        Token::String("plain".to_string()),
        Token::String("quote \" back \\ tick ' nl \n tab \t".to_string()),
        Token::String("e\u{301} zero-width \u{200b} bell \u{7}".to_string()),
        Token::String(String::new()),
        Token::Equals,
        Token::NotEquals,
        Token::LessThan,
        Token::GreaterThan,
        Token::LessThanOrEqual,
        Token::GreaterThanOrEqual,
        Token::If,
        Token::Else,
        Token::LeftBrace,
        Token::RightBrace,
    ];
    for t in tokens {
        assert_eq!(token_debug(&t), format!("{:?}", t));
    }
}

#[test]
fn token_debug_escapes_control_characters() {
    assert_eq!(token_debug(&Token::String("a\nb".to_string())), "String(\"a\\nb\")");
    assert_eq!(token_debug(&Token::String("it's".to_string())), "String(\"it's\")");
}
