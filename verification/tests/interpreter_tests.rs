use lib::ast::{ASTNode, Condition, Value};
use lib::interpreter::{
    evaluate_condition, execute, execute_block, resolve_value, run_block, run_program, ArithOp, Completion,
};
use lib::lexer::lexer;
use lib::parser::parser;
use lib::variables::Variables;

fn run(code: &str) -> (Completion, Vec<String>) {
    let ast = parser(lexer(code)).unwrap();
    let mut output = Vec::new();
    let c = run_program(&ast, &mut output);
    (c, output)
}

fn lines(v: &[&str]) -> Vec<String> {
    v.iter().map(|s| s.to_string()).collect()
}

#[test]
fn prints_and_computes() {
    let (c, out) = run("print \"hi\" let x = 7 add x 3 subtract x 10 multiply x x divide x 2 mod x 4");
    assert_eq!(c, Completion::Finished);
    assert_eq!(out, lines(&["hi", "7 + 3 = 10", "7 - 10 = -3", "7 * 7 = 49", "7 / 2 = 3", "7 % 4 = 3"]));
}

#[test]
fn division_rounds_toward_zero() {
    let (c, out) = run("divide -7 2 mod -7 2 divide 7 -2 mod 7 -2 divide -7 -2 mod -7 -2");
    assert_eq!(c, Completion::Finished);
    assert_eq!(out, lines(&["-7 / 2 = -3", "-7 % 2 = -1", "7 / -2 = -3", "7 % -2 = 1", "-7 / -2 = 3", "-7 % -2 = -1"]));
}

#[test]
fn division_by_zero_is_an_error() {
    let (c, out) = run("print \"a\" divide 1 0 print \"b\"");
    assert_eq!(c, Completion::Error("Division by zero".to_string()));
    assert_eq!(out, lines(&["a"]));
    let (c, _) = run("mod 1 0");
    assert_eq!(c, Completion::Error("Modulus by zero".to_string()));
}

#[test]
fn undefined_variable_is_an_error() {
    let (c, out) = run("add y 1");
    assert_eq!(c, Completion::Error("Undefined variable: y".to_string()));
    assert!(out.is_empty());
    let (c, _) = run("if 1 == z { }");
    assert_eq!(c, Completion::Error("Undefined variable: z".to_string()));
}

#[test]
fn overflow_is_reported() {
    assert_eq!(run("add 2147483647 1").0, Completion::Overflow(ArithOp::Add));
    assert_eq!(run("subtract -2147483648 1").0, Completion::Overflow(ArithOp::Subtract));
    assert_eq!(run("multiply 65536 65536").0, Completion::Overflow(ArithOp::Multiply));
    assert_eq!(run("divide -2147483648 -1").0, Completion::Overflow(ArithOp::Divide));
    assert_eq!(run("mod -2147483648 -1").0, Completion::Overflow(ArithOp::Modulus));
    let (c, out) = run("print \"before\" add 2147483647 1 print \"after\"");
    assert_eq!(c, Completion::Overflow(ArithOp::Add));
    assert_eq!(out, lines(&["before"]));
}

#[test]
fn largest_values_do_not_overflow() {
    let (c, out) = run("add 2147483646 1 subtract -2147483647 1 mod 2147483647 -1 divide -2147483648 1");
    assert_eq!(c, Completion::Finished);
    assert_eq!(out, lines(&["2147483646 + 1 = 2147483647", "-2147483647 - 1 = -2147483648", "2147483647 % -1 = 0", "-2147483648 / 1 = -2147483648"]));
}

#[test]
fn if_runs_the_chosen_branch_and_keeps_bindings() {
    let (c, out) = run(
        "let x = 3 if x < 5 { print \"small\" let x = 10 } else { print \"big\" } add x 0 \
         if x < 5 { print \"no\" } else { print \"yes\" } if x != 10 { print \"skipped\" }",
    );
    assert_eq!(c, Completion::Finished);
    assert_eq!(out, lines(&["small", "10 + 0 = 10", "yes"]));
}

#[test]
fn every_comparison_evaluates() {
    let mut vars = Variables::new();
    vars.insert("a".to_string(), 2);
    let a = Value::Variable("a".to_string());
    let two = Value::Number(2);
    let three = Value::Number(3);
    assert_eq!(evaluate_condition(&Condition::Equals(a.clone(), two.clone()), &vars), Ok(true));
    assert_eq!(evaluate_condition(&Condition::NotEquals(a.clone(), two.clone()), &vars), Ok(false));
    assert_eq!(evaluate_condition(&Condition::LessThan(a.clone(), three.clone()), &vars), Ok(true));
    assert_eq!(evaluate_condition(&Condition::GreaterThan(a.clone(), three.clone()), &vars), Ok(false));
    assert_eq!(evaluate_condition(&Condition::LessThanOrEqual(a.clone(), two.clone()), &vars), Ok(true));
    assert_eq!(evaluate_condition(&Condition::GreaterThanOrEqual(a.clone(), three.clone()), &vars), Ok(false));
    assert_eq!(
        evaluate_condition(&Condition::Equals(Value::Variable("p".to_string()), Value::Variable("q".to_string())), &vars),
        Err("Undefined variable: p".to_string())
    );
}

#[test]
fn resolve_value_reads_numbers_and_variables() {
    let mut vars = Variables::new();
    vars.insert("v".to_string(), -4);
    assert_eq!(resolve_value(&Value::Number(9), &vars), Ok(9));
    assert_eq!(resolve_value(&Value::Variable("v".to_string()), &vars), Ok(-4));
    assert_eq!(resolve_value(&Value::Variable("w".to_string()), &vars), Err("Undefined variable: w".to_string()));
}

#[test]
fn variables_replace_bindings() {
    let mut vars = Variables::new();
    assert_eq!(vars.get(&"k".to_string()), None);
    vars.insert("k".to_string(), 1);
    vars.insert("j".to_string(), 2);
    vars.insert("k".to_string(), 3);
    assert_eq!(vars.get(&"k".to_string()), Some(3));
    assert_eq!(vars.get(&"j".to_string()), Some(2));
}

#[test]
fn execute_and_execute_block_report_errors() {
    let ast = parser(lexer("print \"x\" add q 1")).unwrap();
    let mut out = Vec::new();
    assert_eq!(execute(&ast, &mut out), Err("Undefined variable: q".to_string()));
    assert_eq!(out, lines(&["x"]));

    let block = vec![ASTNode::Let("n".to_string(), 4), ASTNode::Multiply(Value::Variable("n".to_string()), Value::Number(2))];
    let mut vars = Variables::new();
    let mut out = Vec::new();
    assert_eq!(execute_block(&block, &mut vars, &mut out), Ok(()));
    assert_eq!(out, lines(&["4 * 2 = 8"]));
    assert_eq!(vars.get(&"n".to_string()), Some(4));
}

#[test]
fn run_block_continues_from_given_variables() {
    let mut vars = Variables::new();
    vars.insert("m".to_string(), 6);
    let block = vec![ASTNode::Divide(Value::Variable("m".to_string()), Value::Number(4))];
    let mut out = vec!["earlier".to_string()];
    assert_eq!(run_block(&block, &mut vars, &mut out), Completion::Finished);
    assert_eq!(out, lines(&["earlier", "6 / 4 = 1"]));
}
