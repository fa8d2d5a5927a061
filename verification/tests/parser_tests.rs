use lib::ast::{ASTNode, Condition, Value};
use lib::lexer::lexer;
use lib::parser::{parse_block, parse_condition, parse_statement, parse_value, parser, TokenStream};
use lib::token::Token;

fn var(s: &str) -> Value {
    Value::Variable(s.to_string())
}

fn parse(code: &str) -> Result<Vec<ASTNode>, String> {
    parser(lexer(code))
}

#[test]
fn parse_value_accepts_numbers_and_identifiers() {
    assert_eq!(parse_value(Token::Number(3)), Some(Value::Number(3)));
    assert_eq!(parse_value(Token::Identifier("x".to_string())), Some(var("x")));
    assert_eq!(parse_value(Token::String("x".to_string())), None);
    assert_eq!(parse_value(Token::Let), None);
}

#[test]
fn token_stream_reads_in_order() {
    let mut s = TokenStream::new(vec![Token::Let, Token::Assign]);
    assert_eq!(s.peek(), Some(&Token::Let));
    assert_eq!(s.next(), Some(Token::Let));
    assert_eq!(s.next(), Some(Token::Assign));
    assert_eq!(s.peek(), None);
    assert_eq!(s.next(), None);
}

#[test]
fn parses_statements() {
    let ast = parse("let x = 5 print \"hi\" add x 2 subtract 1 x multiply x x divide x 2 mod x 3").unwrap();
    assert_eq!(
        ast,
        vec![
            ASTNode::Let("x".to_string(), 5),
            ASTNode::Print("hi".to_string()),
            ASTNode::Add(var("x"), Value::Number(2)),
            ASTNode::Subtract(Value::Number(1), var("x")),
            ASTNode::Multiply(var("x"), var("x")),
            ASTNode::Divide(var("x"), Value::Number(2)),
            ASTNode::Modulus(var("x"), Value::Number(3)),
        ]
    );
}

#[test]
fn parses_if_else() {
    let ast = parse("if x >= 3 { print \"big\" } else { print \"small\" } print \"done\"").unwrap();
    assert_eq!(
        ast,
        vec![
            ASTNode::If(
                Condition::GreaterThanOrEqual(var("x"), Value::Number(3)),
                vec![ASTNode::Print("big".to_string())],
                Some(vec![ASTNode::Print("small".to_string())]),
            ),
            ASTNode::Print("done".to_string()),
        ]
    );
}

#[test]
fn parses_nested_if_and_open_block() {
    let ast = parse("if a == b { if a != 1 { let a = 1 } } if a < b { print \"x\"").unwrap();
    assert_eq!(
        ast,
        vec![
            ASTNode::If(
                Condition::Equals(var("a"), var("b")),
                vec![ASTNode::If(
                    Condition::NotEquals(var("a"), Value::Number(1)),
                    vec![ASTNode::Let("a".to_string(), 1)],
                    None,
                )],
                None,
            ),
            ASTNode::If(Condition::LessThan(var("a"), var("b")), vec![ASTNode::Print("x".to_string())], None),
        ]
    );
}

#[test]
fn parses_every_comparison() {
    for (op, expected) in [
        ("==", Condition::Equals(var("a"), Value::Number(1))),
        ("!=", Condition::NotEquals(var("a"), Value::Number(1))),
        ("<", Condition::LessThan(var("a"), Value::Number(1))),
        (">", Condition::GreaterThan(var("a"), Value::Number(1))),
        ("<=", Condition::LessThanOrEqual(var("a"), Value::Number(1))),
        (">=", Condition::GreaterThanOrEqual(var("a"), Value::Number(1))),
    ] {
        let mut s = TokenStream::new(lexer(&format!("a {} 1 rest", op)));
        assert_eq!(parse_condition(&mut s), Ok(expected));
        assert_eq!(s.next(), Some(Token::Identifier("rest".to_string())));
    }
}

#[test]
fn condition_errors() {
    let cases = [
        ("", "Expected left operand in condition"),
        ("\"s\" == 1", "Invalid left operand in condition"),
        ("a", "Expected comparison operator"),
        ("a ==", "Expected right operand in condition"),
        ("a == print", "Invalid right operand in condition"),
        ("a = 1", "Invalid comparison operator: Assign"),
        ("a b 1", "Invalid comparison operator: Identifier(\"b\")"),
        ("a 7 1", "Invalid comparison operator: Number(7)"),
    ];
    for (code, message) in cases {
        let mut s = TokenStream::new(lexer(code));
        assert_eq!(parse_condition(&mut s), Err(message.to_string()), "code {:?}", code);
    }
}

#[test]
fn statement_errors() {
    let cases = [
        ("print x", "Expected string after 'print'"),
        ("print", "Expected string after 'print'"),
        ("let 5 = 5", "Expected variable name after 'let'"),
        ("let x 5", "Expected '=' after variable name in let statement"),
        ("let x = y", "Expected number after '=' in let statement"),
        ("let x =", "Expected number after '=' in let statement"),
        ("add", "Expected first operand"),
        ("add 1", "Expected second operand"),
        ("add \"a\" 1", "Invalid first operand"),
        ("add 1 {", "Invalid second operand"),
        ("if x > 1 print \"a\"", "Expected '{' to start block"),
        ("if x > 1 { print 3 }", "Expected string after 'print'"),
        ("if x > 1 { } else print \"a\"", "Expected '{' to start block"),
        ("else", "Unexpected token: Else"),
        ("}", "Unexpected token: RightBrace"),
        ("\"text\"", "Unexpected token: String(\"text\")"),
        ("x", "Unexpected token: Identifier(\"x\")"),
        ("print \"a\" 12", "Unexpected token: Number(12)"),
    ];
    for (code, message) in cases {
        assert_eq!(parse(code), Err(message.to_string()), "code {:?}", code);
    }
}

#[test]
fn parse_statement_reads_one_statement() {
    let mut s = TokenStream::new(lexer("let x = 1 let y = 2"));
    assert_eq!(parse_statement(&mut s), Ok(ASTNode::Let("x".to_string(), 1)));
    assert_eq!(s.peek(), Some(&Token::Let));
    let mut empty = TokenStream::new(vec![]);
    assert_eq!(parse_statement(&mut empty), Err("Expected statement".to_string()));
}

#[test]
fn parse_block_reads_to_its_closing_brace() {
    let mut s = TokenStream::new(lexer("{ print \"a\" } print \"b\""));
    assert_eq!(parse_block(&mut s), Ok(vec![ASTNode::Print("a".to_string())]));
    assert_eq!(s.next(), Some(Token::Print));
    let mut t = TokenStream::new(lexer("print \"a\""));
    assert_eq!(parse_block(&mut t), Err("Expected '{' to start block".to_string()));
    assert_eq!(t.next(), Some(Token::String("a".to_string())));
}

#[test]
fn empty_program_parses() {
    assert_eq!(parse(""), Ok(vec![]));
}
