use lib::interpreter::{run_program, Completion};
use lib::lexer::lexer_with_diagnostics;
use lib::parser::{parse_statement, TokenStream};
use lib::token::Token;
use lib::ast::ASTNode;
use lib::lexer::lexer;
use lib::parser::parser;

fn lex(code: &str) -> (Vec<Token>, Vec<String>) {
    let mut d = Vec::new();
    let t = lexer_with_diagnostics(code, &mut d);
    (t, d)
}

#[test]
fn separator_splits_lexing() {
    let pieces = [("let x = \"a b\"", "print \"c\""), ("a !", "= b"), ("x =", "= y"), ("1.5", "\"q\"")];
    for separator in [' ', '\n', '\u{a0}'] {
        for (left, right) in pieces {
            let (whole_t, whole_d) = lex(&format!("{}{}{}", left, separator, right));
            let (mut tokens, mut diags) = lex(left);
            let (rt, rd) = lex(right);
            tokens.extend(rt);
            diags.extend(rd);
            assert_eq!(whole_t, tokens);
            assert_eq!(whole_d, diags);
        }
    }
}

#[test]
fn open_string_is_not_split() {
    let (whole, _) = lex("\"a b\"");
    assert_eq!(whole, vec![Token::String("a b".to_string())]);
}

#[test]
fn running_two_programs_in_sequence() {
    let first = "let x = 2 add x 1";
    let second = "multiply x 5";
    let mut out = Vec::new();
    let ast = parser(lexer(&format!("{} {}", first, second))).unwrap();
    assert_eq!(run_program(&ast, &mut out), Completion::Finished);
    assert_eq!(out, vec!["2 + 1 = 3".to_string(), "2 * 5 = 10".to_string()]);
    let mut out = Vec::new();
    let ast = parser(lexer(&format!("{} {}", "divide 1 0", second))).unwrap();
    assert_eq!(run_program(&ast, &mut out), Completion::Error("Division by zero".to_string()));
    assert!(out.is_empty());
}

#[test]
fn let_then_read_gives_the_value() {
    let mut out = Vec::new();
    let ast = parser(lexer("let a = 1 let b = 9 let a = 4 add a b")).unwrap();
    assert_eq!(run_program(&ast, &mut out), Completion::Finished);
    assert_eq!(out, vec!["4 + 9 = 13".to_string()]);
}

#[test]
fn comparison_negations_on_values() {
    for (a, b) in [(1, 2), (2, 2), (3, 2)] {
        for (op, neg) in [("==", "!="), ("<", ">="), (">", "<=")] {
            let code = format!("if {} {} {} {{ print \"t\" }} else {{ print \"f\" }} if {} {} {} {{ print \"t\" }} else {{ print \"f\" }}", a, op, b, a, neg, b);
            let mut out = Vec::new();
            let ast = parser(lexer(&code)).unwrap();
            assert_eq!(run_program(&ast, &mut out), Completion::Finished);
            assert_ne!(out[0], out[1]);
        }
    }
}

#[test]
fn division_identity_on_values() {
    for (a, b) in [(7i32, 2i32), (-7, 2), (7, -2), (-7, -2), (0, 5), (i32::MIN, 3)] {
        let mut out = Vec::new();
        let ast = parser(lexer(&format!("divide {} {} mod {} {}", a, b, a, b))).unwrap();
        assert_eq!(run_program(&ast, &mut out), Completion::Finished);
        let q: i32 = out[0].rsplit(' ').next().unwrap().parse().unwrap();
        let r: i32 = out[1].rsplit(' ').next().unwrap().parse().unwrap();
        assert_eq!(a as i64, b as i64 * q as i64 + r as i64);
        assert!((r as i64).abs() < (b as i64).abs());
    }
}

#[test]
fn statement_parse_ignores_what_follows() {
    let mut s = TokenStream::new(lexer("if a < 1 { print \"x\" } print \"y\""));
    assert_eq!(
        parse_statement(&mut s).map(|n| matches!(n, ASTNode::If(_, _, None))),
        Ok(true)
    );
    let mut t = TokenStream::new(lexer("if a < 1 { print \"x\" } print \"y\" else { }"));
    assert_eq!(
        parse_statement(&mut t).map(|n| matches!(n, ASTNode::If(_, _, None))),
        Ok(true)
    );
}

#[test]
fn lexed_identifiers_are_well_formed() {
    let (tokens, _) = lex("abc let 12 -3 x_y \"q\" é");
    for t in tokens {
        if let Token::Identifier(w) = t {
            assert!(!w.is_empty());
            assert!(w.chars().all(|c| c.is_alphanumeric() || c == '_'));
            assert!(w.parse::<i32>().is_err());
        }
    }
}

#[test]
fn programs_with_closed_blocks_concatenate() {
    let pairs = [
        ("if a < 1 { print \"x\" }", "print \"y\""),
        ("let a = 1 if a == 1 { if a != 2 { add a 1 } } else { }", "mod a 2"),
        ("print \"p\"", "if b > 2 { }"),
        ("", "let z = 3"),
    ];
    for (a, b) in pairs {
        let x = parser(lexer(a)).unwrap();
        let y = parser(lexer(b)).unwrap();
        let mut tokens = lexer(a);
        tokens.extend(lexer(b));
        let mut expected = x;
        expected.extend(y);
        assert_eq!(parser(tokens), Ok(expected));
    }
}

#[test]
fn open_block_absorbs_what_follows() {
    let mut tokens = lexer("if a < 1 { print \"x\"");
    tokens.extend(lexer("print \"y\""));
    let ast = parser(tokens).unwrap();
    assert_eq!(ast.len(), 1);
}
