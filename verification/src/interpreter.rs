//! The interpreter: runs statements over a variable store, collecting the
//! lines they print.
use vstd::prelude::*;
use vstd::string::*;
use crate::ast::{block_view, lemma_block_view_index, node_view, ASTNode, Condition, SpecCondition, SpecNode, SpecValue, Value};
use crate::numeric::{decimal_string, decimal_text};
use crate::text::push_line;
use crate::variables::Variables;

verus! {

/// An arithmetic operation.
#[derive(Debug, Clone, Copy, PartialEq, Eq, Structural)]
pub enum ArithOp {
    Add,
    Subtract,
    Multiply,
    Divide,
    Modulus,
}

/// How running statements ends.
#[derive(Debug, PartialEq, Eq)]
pub enum Completion {
    /// Every statement ran.
    Finished,
    /// A statement failed with this message; the statements after it did
    /// not run.
    Error(String),
    /// An operation's result does not fit in `i32` (for `%`: the dividend is
    /// `i32::MIN` and the divisor `-1`), where evaluation panics.
    Overflow(ArithOp),
}

/// The mathematical value of a [`Completion`].
pub enum Status {
    Finished,
    Error(Seq<char>),
    Overflow(ArithOp),
}

impl View for Completion {
    type V = Status;

    open spec fn view(&self) -> Status {
        match self {
            Completion::Finished => Status::Finished,
            Completion::Error(e) => Status::Error(e@),
            Completion::Overflow(op) => Status::Overflow(*op),
        }
    }
}

/// What running statements does: the lines printed, the variables after,
/// and how it ended.
pub struct Run {
    pub output: Seq<Seq<char>>,
    pub vars: Map<Seq<char>, i32>,
    pub status: Status,
}

/// The absolute value of an integer.
pub open spec fn abs(x: int) -> int {
    if x < 0 {
        -x
    } else {
        x
    }
}

/// Integer division rounding toward zero, as `/` on `i32` does.
pub open spec fn trunc_div(x: int, d: int) -> int {
    if (x < 0) == (d < 0) {
        abs(x) / abs(d)
    } else {
        -(abs(x) / abs(d))
    }
}

/// The remainder of division rounding toward zero, as `%` on `i32` gives
/// it: it has the sign of the dividend.
pub open spec fn trunc_rem(x: int, d: int) -> int {
    if x < 0 {
        -(abs(x) % abs(d))
    } else {
        abs(x) % abs(d)
    }
}

/// The exact result of an arithmetic operation.
pub open spec fn arith_value(op: ArithOp, a: int, b: int) -> int {
    match op {
        ArithOp::Add => a + b,
        ArithOp::Subtract => a - b,
        ArithOp::Multiply => a * b,
        ArithOp::Divide => trunc_div(a, b),
        ArithOp::Modulus => trunc_rem(a, b),
    }
}

/// Whether the operation panics for overflow on `i32` operands (the
/// divisor is not zero).
pub open spec fn arith_overflows(op: ArithOp, a: i32, b: i32) -> bool {
    match op {
        ArithOp::Modulus => a == i32::MIN && b == -1,
        _ => !(i32::MIN <= arith_value(op, a as int, b as int) <= i32::MAX),
    }
}

/// The operator between the operands in a printed line.
pub open spec fn op_text(op: ArithOp) -> Seq<char> {
    match op {
        ArithOp::Add => " + "@,
        ArithOp::Subtract => " - "@,
        ArithOp::Multiply => " * "@,
        ArithOp::Divide => " / "@,
        ArithOp::Modulus => " % "@,
    }
}

/// The line printed for an operation: `a op b = result`.
pub open spec fn arith_line(op: ArithOp, a: i32, b: i32, v: int) -> Seq<char> {
    decimal_text(a as int) + op_text(op) + decimal_text(b as int) + " = "@ + decimal_text(v)
}

/// The message for a variable that has no value.
pub open spec fn undefined_message(name: Seq<char>) -> Seq<char> {
    "Undefined variable: "@ + name
}

/// The value of an operand.
pub open spec fn resolve_spec(v: SpecValue, vars: Map<Seq<char>, i32>) -> Result<i32, Seq<char>> {
    match v {
        SpecValue::Number(n) => Ok(n),
        SpecValue::Variable(name) => if vars.contains_key(name) {
            Ok(vars[name])
        } else {
            Err(undefined_message(name))
        },
    }
}

/// Compares two operands, resolving the left one first.
pub open spec fn compare_spec(
    l: SpecValue,
    r: SpecValue,
    vars: Map<Seq<char>, i32>,
    holds: spec_fn(i32, i32) -> bool,
) -> Result<bool, Seq<char>> {
    match resolve_spec(l, vars) {
        Err(e) => Err(e),
        Ok(a) => match resolve_spec(r, vars) {
            Err(e) => Err(e),
            Ok(b) => Ok(holds(a, b)),
        },
    }
}

/// The truth of a condition.
pub open spec fn evaluate_spec(c: SpecCondition, vars: Map<Seq<char>, i32>) -> Result<bool, Seq<char>> {
    match c {
        SpecCondition::Equals(l, r) => compare_spec(l, r, vars, |a: i32, b: i32| a == b),
        SpecCondition::NotEquals(l, r) => compare_spec(l, r, vars, |a: i32, b: i32| a != b),
        SpecCondition::LessThan(l, r) => compare_spec(l, r, vars, |a: i32, b: i32| a < b),
        SpecCondition::GreaterThan(l, r) => compare_spec(l, r, vars, |a: i32, b: i32| a > b),
        SpecCondition::LessThanOrEqual(l, r) => compare_spec(l, r, vars, |a: i32, b: i32| a <= b),
        SpecCondition::GreaterThanOrEqual(l, r) => compare_spec(l, r, vars, |a: i32, b: i32| a >= b),
    }
}

/// A run that prints nothing, leaves the variables and ends as given.
pub open spec fn quiet(vars: Map<Seq<char>, i32>, status: Status) -> Run {
    Run { output: Seq::empty(), vars, status }
}

/// Running an arithmetic statement: resolve both operands, refuse a zero
/// divisor, then print the line with the result.
pub open spec fn arith_run(op: ArithOp, l: SpecValue, r: SpecValue, vars: Map<Seq<char>, i32>) -> Run {
    match resolve_spec(l, vars) {
        Err(e) => quiet(vars, Status::Error(e)),
        Ok(a) => match resolve_spec(r, vars) {
            Err(e) => quiet(vars, Status::Error(e)),
            Ok(b) => if op == ArithOp::Divide && b == 0 {
                quiet(vars, Status::Error("Division by zero"@))
            } else if op == ArithOp::Modulus && b == 0 {
                quiet(vars, Status::Error("Modulus by zero"@))
            } else if arith_overflows(op, a, b) {
                quiet(vars, Status::Overflow(op))
            } else {
                Run {
                    output: seq![arith_line(op, a, b, arith_value(op, a as int, b as int))],
                    vars,
                    status: Status::Finished,
                }
            },
        },
    }
}

/// Running one statement.
pub open spec fn node_run(n: SpecNode, vars: Map<Seq<char>, i32>) -> Run
    decreases n,
{
    match n {
        SpecNode::Print(text) => Run { output: seq![text], vars, status: Status::Finished },
        SpecNode::Let(name, v) => quiet(vars.insert(name, v), Status::Finished),
        SpecNode::Add(l, r) => arith_run(ArithOp::Add, l, r, vars),
        SpecNode::Subtract(l, r) => arith_run(ArithOp::Subtract, l, r, vars),
        SpecNode::Multiply(l, r) => arith_run(ArithOp::Multiply, l, r, vars),
        SpecNode::Divide(l, r) => arith_run(ArithOp::Divide, l, r, vars),
        SpecNode::Modulus(l, r) => arith_run(ArithOp::Modulus, l, r, vars),
        SpecNode::If(c, t, e) => match evaluate_spec(c, vars) {
            Err(msg) => quiet(vars, Status::Error(msg)),
            Ok(true) => block_run(t, vars),
            Ok(false) => match e {
                Some(b) => block_run(b, vars),
                None => quiet(vars, Status::Finished),
            },
        },
    }
}

/// Running statements in order, stopping at the first that does not
/// finish.
pub open spec fn block_run(b: Seq<SpecNode>, vars: Map<Seq<char>, i32>) -> Run
    decreases b,
{
    if b.len() == 0 {
        quiet(vars, Status::Finished)
    } else {
        let first = node_run(b[0], vars);
        match first.status {
            Status::Finished => {
                let rest = block_run(b.drop_first(), first.vars);
                Run { output: first.output + rest.output, vars: rest.vars, status: rest.status }
            },
            _ => first,
        }
    }
}


/// The view of an evaluation result with an error message.
pub open spec fn value_result(r: Result<i32, String>) -> Result<i32, Seq<char>> {
    match r {
        Ok(n) => Ok(n),
        Err(e) => Err(e@),
    }
}

/// The view of an evaluation result with an error message.
pub open spec fn truth_result(r: Result<bool, String>) -> Result<bool, Seq<char>> {
    match r {
        Ok(b) => Ok(b),
        Err(e) => Err(e@),
    }
}

/// The value of an operand: the number itself, or the variable's value.
pub fn resolve_value(value: &Value, variables: &Variables) -> (r: Result<i32, String>)
    ensures
        value_result(r) == resolve_spec(value@, variables@),
{
    match value {
        Value::Number(n) => Ok(*n),
        Value::Variable(var) => match variables.get(var) {
            Some(n) => Ok(n),
            None => {
                let mut msg = String::from_str("Undefined variable: ");
                msg.append(var.as_str());
                Err(msg)
            },
        },
    }
}

/// The truth of a condition, resolving the left operand first.
pub fn evaluate_condition(condition: &Condition, variables: &Variables) -> (r: Result<bool, String>)
    ensures
        truth_result(r) == evaluate_spec(condition@, variables@),
{
    let (lhs, rhs) = match condition {
        Condition::Equals(l, r) => (l, r),
        Condition::NotEquals(l, r) => (l, r),
        Condition::LessThan(l, r) => (l, r),
        Condition::GreaterThan(l, r) => (l, r),
        Condition::LessThanOrEqual(l, r) => (l, r),
        Condition::GreaterThanOrEqual(l, r) => (l, r),
    };
    let lhs_val = match resolve_value(lhs, variables) {
        Ok(v) => v,
        Err(e) => return Err(e),
    };
    let rhs_val = match resolve_value(rhs, variables) {
        Ok(v) => v,
        Err(e) => return Err(e),
    };
    match condition {
        Condition::Equals(_, _) => Ok(lhs_val == rhs_val),
        Condition::NotEquals(_, _) => Ok(lhs_val != rhs_val),
        Condition::LessThan(_, _) => Ok(lhs_val < rhs_val),
        Condition::GreaterThan(_, _) => Ok(lhs_val > rhs_val),
        Condition::LessThanOrEqual(_, _) => Ok(lhs_val <= rhs_val),
        Condition::GreaterThanOrEqual(_, _) => Ok(lhs_val >= rhs_val),
    }
}

/// The result of an operation on nonzero-divisor operands, or `None` where
/// it overflows.
fn apply(op: ArithOp, a: i32, b: i32) -> (r: Option<i32>)
    requires
        (op == ArithOp::Divide || op == ArithOp::Modulus) ==> b != 0,
    ensures
        match r {
            Some(v) => !arith_overflows(op, a, b) && v == arith_value(op, a as int, b as int),
            None => arith_overflows(op, a, b),
        },
{
    match op {
        ArithOp::Add => a.checked_add(b),
        ArithOp::Subtract => a.checked_sub(b),
        ArithOp::Multiply => a.checked_mul(b),
        ArithOp::Divide => a.checked_div(b),
        ArithOp::Modulus => a.checked_rem(b),
    }
}

/// The operator between the operands in a printed line.
fn op_str(op: ArithOp) -> (s: &'static str)
    ensures
        s@ == op_text(op),
{
    match op {
        ArithOp::Add => " + ",
        ArithOp::Subtract => " - ",
        ArithOp::Multiply => " * ",
        ArithOp::Divide => " / ",
        ArithOp::Modulus => " % ",
    }
}

/// Runs an arithmetic statement.
fn run_arith(op: ArithOp, lhs: &Value, rhs: &Value, variables: &Variables, output: &mut Vec<String>) -> (c: Completion)
    ensures
        ({
            let run = arith_run(op, lhs@, rhs@, variables@);
            &&& run.vars == variables@
            &&& final(output).deep_view() == old(output).deep_view() + run.output
            &&& c@ == run.status
        }),
{
    let lhs_val = match resolve_value(lhs, variables) {
        Ok(v) => v,
        Err(e) => {
            assert(old(output).deep_view() + Seq::<Seq<char>>::empty() =~= old(output).deep_view());
            return Completion::Error(e);
        },
    };
    let rhs_val = match resolve_value(rhs, variables) {
        Ok(v) => v,
        Err(e) => {
            assert(old(output).deep_view() + Seq::<Seq<char>>::empty() =~= old(output).deep_view());
            return Completion::Error(e);
        },
    };
    assert(old(output).deep_view() + Seq::<Seq<char>>::empty() =~= old(output).deep_view());
    if rhs_val == 0 {
        if op == ArithOp::Divide {
            return Completion::Error(String::from_str("Division by zero"));
        }
        if op == ArithOp::Modulus {
            return Completion::Error(String::from_str("Modulus by zero"));
        }
    }
    let result = match apply(op, lhs_val, rhs_val) {
        Some(v) => v,
        None => return Completion::Overflow(op),
    };
    let mut line = decimal_string(lhs_val);
    line.append(op_str(op));
    let r = decimal_string(rhs_val);
    line.append(r.as_str());
    line.append(" = ");
    let v = decimal_string(result);
    line.append(v.as_str());
    push_line(output, line);
    assert(output.deep_view() =~= old(output).deep_view() + seq![arith_line(op, lhs_val, rhs_val, result as int)]);
    Completion::Finished
}

/// The lines already printed in front of what the rest of a run prints.
pub open spec fn after_lines(printed: Seq<Seq<char>>, r: Run) -> Run {
    Run { output: printed + r.output, ..r }
}

/// Runs one statement.
fn execute_node(node: &ASTNode, variables: &mut Variables, output: &mut Vec<String>) -> (c: Completion)
    ensures
        ({
            let run = node_run(node@, old(variables)@);
            &&& final(variables)@ == run.vars
            &&& final(output).deep_view() == old(output).deep_view() + run.output
            &&& c@ == run.status
        }),
    decreases node,
{
    match node {
        ASTNode::Print(text) => {
            push_line(output, text.clone());
            Completion::Finished
        },
        ASTNode::Let(var, value) => {
            variables.insert(var.clone(), *value);
            assert(old(output).deep_view() + Seq::<Seq<char>>::empty() =~= old(output).deep_view());
            Completion::Finished
        },
        ASTNode::Add(lhs, rhs) => run_arith(ArithOp::Add, lhs, rhs, variables, output),
        ASTNode::Subtract(lhs, rhs) => run_arith(ArithOp::Subtract, lhs, rhs, variables, output),
        ASTNode::Multiply(lhs, rhs) => run_arith(ArithOp::Multiply, lhs, rhs, variables, output),
        ASTNode::Divide(lhs, rhs) => run_arith(ArithOp::Divide, lhs, rhs, variables, output),
        ASTNode::Modulus(lhs, rhs) => run_arith(ArithOp::Modulus, lhs, rhs, variables, output),
        ASTNode::If(condition, then_block, else_block) => {
            let condition_result = match evaluate_condition(condition, variables) {
                Ok(b) => b,
                Err(e) => {
                    assert(old(output).deep_view() + Seq::<Seq<char>>::empty() =~= old(output).deep_view());
                    return Completion::Error(e);
                },
            };
            if condition_result {
                run_block(then_block.as_slice(), variables, output)
            } else {
                match else_block {
                    Some(b) => run_block(b.as_slice(), variables, output),
                    None => {
                        assert(old(output).deep_view() + Seq::<Seq<char>>::empty() =~= old(output).deep_view());
                        Completion::Finished
                    },
                }
            }
        },
    }
}

/// Runs statements in order over `variables`, appending the lines they print
/// to `output`, and stops at the first statement that does not finish.
pub fn run_block(block: &[ASTNode], variables: &mut Variables, output: &mut Vec<String>) -> (c: Completion)
    ensures
        ({
            let run = block_run(block_view(block@), old(variables)@);
            &&& final(variables)@ == run.vars
            &&& final(output).deep_view() == old(output).deep_view() + run.output
            &&& c@ == run.status
        }),
    decreases block@,
{
    let ghost bv = block_view(block@);
    let ghost mut printed: Seq<Seq<char>> = Seq::empty();
    proof {
        lemma_block_view_index(block@);
        assert(bv.skip(0) =~= bv);
        assert(printed + block_run(bv, old(variables)@).output =~= block_run(bv, old(variables)@).output);
        assert(old(output).deep_view() + printed =~= old(output).deep_view());
    }
    let mut i: usize = 0;
    while i < block.len()
        invariant
            i <= block@.len(),
            bv == block_view(block@),
            bv.len() == block@.len(),
            forall|k: int| 0 <= k < block@.len() ==> #[trigger] bv[k] == node_view(block@[k]),
            block_run(bv, old(variables)@) == after_lines(printed, block_run(bv.skip(i as int), variables@)),
            output.deep_view() == old(output).deep_view() + printed,
        decreases block@.len() - i,
    {
        let ghost vars_before = variables@;
        let ghost out_before = output.deep_view();
        let ghost rest = bv.skip(i as int);
        assert(rest[0] == node_view(block@[i as int]));
        assert(rest.drop_first() =~= bv.skip(i + 1));
        let c = execute_node(&block[i], variables, output);
        let ghost step = node_run(block@[i as int]@, vars_before);
        match c {
            Completion::Finished => {},
            _ => {
                assert(output.deep_view() =~= old(output).deep_view() + (printed + step.output));
                return c;
            },
        }
        proof {
            let tail = block_run(bv.skip(i + 1), variables@);
            assert(printed + (step.output + tail.output) =~= (printed + step.output) + tail.output);
            assert(output.deep_view() =~= old(output).deep_view() + (printed + step.output));
            printed = printed + step.output;
        }
        i = i + 1;
    }
    proof {
        assert(bv.skip(i as int) =~= Seq::<SpecNode>::empty());
        assert(printed + Seq::<Seq<char>>::empty() =~= printed);
    }
    Completion::Finished
}

/// Runs statements in order over `variables`, appending the lines they print
/// to `output`; an error stops the run and is returned. The statements must
/// not overflow, where evaluation panics.
pub fn execute_block(block: &[ASTNode], variables: &mut Variables, output: &mut Vec<String>) -> (r: Result<(), String>)
    requires
        !(block_run(block_view(block@), old(variables)@).status is Overflow),
    ensures
        ({
            let run = block_run(block_view(block@), old(variables)@);
            &&& final(variables)@ == run.vars
            &&& final(output).deep_view() == old(output).deep_view() + run.output
            &&& match r {
                Ok(()) => run.status is Finished,
                Err(e) => run.status == Status::Error(e@),
            }
        }),
{
    match run_block(block, variables, output) {
        Completion::Finished => Ok(()),
        Completion::Error(e) => Err(e),
        // Unreachable: the statements do not overflow.
        Completion::Overflow(_) => Ok(()),
    }
}

/// Runs a program from an empty variable store, appending the lines it
/// prints to `output`, and says how it ended.
pub fn run_program(ast: &[ASTNode], output: &mut Vec<String>) -> (c: Completion)
    ensures
        ({
            let run = block_run(block_view(ast@), Map::empty());
            &&& final(output).deep_view() == old(output).deep_view() + run.output
            &&& c@ == run.status
        }),
{
    let mut variables = Variables::new();
    run_block(ast, &mut variables, output)
}

/// Runs a program from an empty variable store, appending the lines it
/// prints to `output`; an error stops the run and is returned. The program
/// must not overflow, where evaluation panics.
pub fn execute(ast: &[ASTNode], output: &mut Vec<String>) -> (r: Result<(), String>)
    requires
        !(block_run(block_view(ast@), Map::empty()).status is Overflow),
    ensures
        ({
            let run = block_run(block_view(ast@), Map::empty());
            &&& final(output).deep_view() == old(output).deep_view() + run.output
            &&& match r {
                Ok(()) => run.status is Finished,
                Err(e) => run.status == Status::Error(e@),
            }
        }),
{
    let mut variables = Variables::new();
    execute_block(ast, &mut variables, output)
}

} // verus!
