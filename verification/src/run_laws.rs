//! What running statements does, stated over operand values, printed text
//! and variable maps: each law fixes one kind of statement or condition
//! without going through the functions that define the run.
use vstd::prelude::*;
use crate::ast::{SpecCondition, SpecNode, SpecValue};
use crate::interpreter::{block_run, evaluate_spec, node_run, resolve_spec, Status};
use crate::numeric::decimal_text;

verus! {

/// An operand's value: a literal is itself; a variable is its binding, and
/// reading an unbound one fails with a message naming it.
pub proof fn lemma_operand_values(n: i32, name: Seq<char>, vars: Map<Seq<char>, i32>)
    ensures
        resolve_spec(SpecValue::Number(n), vars) == Ok::<i32, Seq<char>>(n),
        vars.contains_key(name) ==> resolve_spec(SpecValue::Variable(name), vars) == Ok::<i32, Seq<char>>(vars[name]),
        !vars.contains_key(name) ==> resolve_spec(SpecValue::Variable(name), vars) == Err::<i32, Seq<char>>(
            "Undefined variable: "@ + name,
        ),
{
}

/// A comparison of two operands with values `a` and `b` is the signed
/// integer comparison of `a` with `b`, left operand on the left.
pub proof fn lemma_comparison_values(l: SpecValue, r: SpecValue, vars: Map<Seq<char>, i32>, a: i32, b: i32)
    requires
        resolve_spec(l, vars) == Ok::<i32, Seq<char>>(a),
        resolve_spec(r, vars) == Ok::<i32, Seq<char>>(b),
    ensures
        evaluate_spec(SpecCondition::Equals(l, r), vars) == Ok::<bool, Seq<char>>(a as int == b as int),
        evaluate_spec(SpecCondition::NotEquals(l, r), vars) == Ok::<bool, Seq<char>>(a as int != b as int),
        evaluate_spec(SpecCondition::LessThan(l, r), vars) == Ok::<bool, Seq<char>>((a as int) < (b as int)),
        evaluate_spec(SpecCondition::GreaterThan(l, r), vars) == Ok::<bool, Seq<char>>((a as int) > (b as int)),
        evaluate_spec(SpecCondition::LessThanOrEqual(l, r), vars) == Ok::<bool, Seq<char>>((a as int) <= (b as int)),
        evaluate_spec(SpecCondition::GreaterThanOrEqual(l, r), vars) == Ok::<bool, Seq<char>>((a as int) >= (b as int)),
{
}

/// A comparison fails with the left operand's error when it has no value,
/// else with the right operand's.
pub proof fn lemma_comparison_errors(l: SpecValue, r: SpecValue, vars: Map<Seq<char>, i32>, c: SpecCondition)
    requires
        c == SpecCondition::Equals(l, r) || c == SpecCondition::NotEquals(l, r) || c == SpecCondition::LessThan(l, r)
            || c == SpecCondition::GreaterThan(l, r) || c == SpecCondition::LessThanOrEqual(l, r)
            || c == SpecCondition::GreaterThanOrEqual(l, r),
    ensures
        resolve_spec(l, vars) matches Err(e) ==> evaluate_spec(c, vars) == Err::<bool, Seq<char>>(e),
        resolve_spec(l, vars) is Ok ==> (resolve_spec(r, vars) matches Err(e) ==> evaluate_spec(c, vars) == Err::<bool, Seq<char>>(e)),
{
}

/// An `if` whose condition holds runs its first block from the same
/// variables, whether or not it has an `else` block; one whose condition
/// fails runs its `else` block, or does nothing without one; one whose
/// condition cannot be evaluated stops with that error, printing nothing.
pub proof fn lemma_if_runs_chosen_block(
    c: SpecCondition,
    t: Seq<SpecNode>,
    e: Option<Seq<SpecNode>>,
    vars: Map<Seq<char>, i32>,
)
    ensures
        evaluate_spec(c, vars) == Ok::<bool, Seq<char>>(true) ==> node_run(SpecNode::If(c, t, e), vars) == block_run(t, vars),
        evaluate_spec(c, vars) == Ok::<bool, Seq<char>>(false) ==> (e matches Some(b) ==> node_run(SpecNode::If(c, t, e), vars)
            == block_run(b, vars)),
        evaluate_spec(c, vars) == Ok::<bool, Seq<char>>(false) && e is None ==> ({
            let run = node_run(SpecNode::If(c, t, e), vars);
            run.output.len() == 0 && run.vars == vars && run.status is Finished
        }),
        evaluate_spec(c, vars) matches Err(msg) ==> ({
            let run = node_run(SpecNode::If(c, t, e), vars);
            run.output.len() == 0 && run.vars == vars && run.status == Status::Error(msg)
        }),
{
}

/// `print` prints its text as one line and changes nothing else; `let`
/// prints nothing and binds its variable.
pub proof fn lemma_print_and_let(text: Seq<char>, name: Seq<char>, v: i32, vars: Map<Seq<char>, i32>)
    ensures
        node_run(SpecNode::Print(text), vars).output == seq![text],
        node_run(SpecNode::Print(text), vars).vars == vars,
        node_run(SpecNode::Print(text), vars).status is Finished,
        node_run(SpecNode::Let(name, v), vars).output.len() == 0,
        node_run(SpecNode::Let(name, v), vars).vars == vars.insert(name, v),
        node_run(SpecNode::Let(name, v), vars).status is Finished,
{
}

/// The line an arithmetic statement prints: the operands, the operator and
/// the result.
pub open spec fn line_of(a: i32, op: Seq<char>, b: i32, result: int) -> Seq<char> {
    decimal_text(a as int) + op + decimal_text(b as int) + " = "@ + decimal_text(result)
}

/// Addition, subtraction and multiplication of operands with values `a` and
/// `b` (left operand first) print `a op b = result` with the exact result
/// when it fits in `i32`, leave the variables as they are, and overflow
/// otherwise, printing nothing.
pub proof fn lemma_add_sub_mul(l: SpecValue, r: SpecValue, vars: Map<Seq<char>, i32>, a: i32, b: i32)
    requires
        resolve_spec(l, vars) == Ok::<i32, Seq<char>>(a),
        resolve_spec(r, vars) == Ok::<i32, Seq<char>>(b),
    ensures
        i32::MIN <= a + b <= i32::MAX ==> node_run(SpecNode::Add(l, r), vars).output == seq![line_of(a, " + "@, b, a + b)],
        i32::MIN <= a - b <= i32::MAX ==> node_run(SpecNode::Subtract(l, r), vars).output == seq![line_of(a, " - "@, b, a - b)],
        i32::MIN <= a * b <= i32::MAX ==> node_run(SpecNode::Multiply(l, r), vars).output == seq![line_of(a, " * "@, b, a * b)],
        i32::MIN <= a + b <= i32::MAX ==> node_run(SpecNode::Add(l, r), vars).status is Finished,
        i32::MIN <= a - b <= i32::MAX ==> node_run(SpecNode::Subtract(l, r), vars).status is Finished,
        i32::MIN <= a * b <= i32::MAX ==> node_run(SpecNode::Multiply(l, r), vars).status is Finished,
        !(i32::MIN <= a + b <= i32::MAX) ==> node_run(SpecNode::Add(l, r), vars).status is Overflow
            && node_run(SpecNode::Add(l, r), vars).output.len() == 0,
        !(i32::MIN <= a - b <= i32::MAX) ==> node_run(SpecNode::Subtract(l, r), vars).status is Overflow
            && node_run(SpecNode::Subtract(l, r), vars).output.len() == 0,
        !(i32::MIN <= a * b <= i32::MAX) ==> node_run(SpecNode::Multiply(l, r), vars).status is Overflow
            && node_run(SpecNode::Multiply(l, r), vars).output.len() == 0,
        node_run(SpecNode::Add(l, r), vars).vars == vars,
        node_run(SpecNode::Subtract(l, r), vars).vars == vars,
        node_run(SpecNode::Multiply(l, r), vars).vars == vars,
{
}

/// Division and remainder by zero are errors that print nothing, and
/// dividing `i32::MIN` by `-1` (or taking that remainder) overflows.
pub proof fn lemma_divide_modulus_refused(l: SpecValue, r: SpecValue, vars: Map<Seq<char>, i32>, a: i32, b: i32)
    requires
        resolve_spec(l, vars) == Ok::<i32, Seq<char>>(a),
        resolve_spec(r, vars) == Ok::<i32, Seq<char>>(b),
    ensures
        b == 0 ==> node_run(SpecNode::Divide(l, r), vars).status == Status::Error("Division by zero"@)
            && node_run(SpecNode::Divide(l, r), vars).output.len() == 0,
        b == 0 ==> node_run(SpecNode::Modulus(l, r), vars).status == Status::Error("Modulus by zero"@)
            && node_run(SpecNode::Modulus(l, r), vars).output.len() == 0,
        a == i32::MIN && b == -1 ==> node_run(SpecNode::Divide(l, r), vars).status is Overflow,
        a == i32::MIN && b == -1 ==> node_run(SpecNode::Modulus(l, r), vars).status is Overflow,
        node_run(SpecNode::Divide(l, r), vars).vars == vars,
        node_run(SpecNode::Modulus(l, r), vars).vars == vars,
{
    if a == i32::MIN && b == -1 {
        assert(crate::interpreter::abs(b as int) == 1);
        assert(crate::interpreter::abs(a as int) / 1 == crate::interpreter::abs(a as int));
        assert(crate::interpreter::trunc_div(a as int, b as int) == 0x8000_0000);
    }
}

/// Division and remainder by a nonzero divisor, where they do not
/// overflow, print `a / b = q` and `a % b = m` where `a == b * q + m`, `m`
/// has the dividend's sign (or is zero) and is smaller than `b` in
/// magnitude: `q` is the quotient rounded toward zero.
pub proof fn lemma_divide_modulus_results(l: SpecValue, r: SpecValue, vars: Map<Seq<char>, i32>, a: i32, b: i32)
    requires
        resolve_spec(l, vars) == Ok::<i32, Seq<char>>(a),
        resolve_spec(r, vars) == Ok::<i32, Seq<char>>(b),
        b != 0,
        !(a == i32::MIN && b == -1),
    ensures
        exists|q: int, m: int| {
            &&& a == b * q + m
            &&& (a >= 0 ==> 0 <= m) && (a < 0 ==> m <= 0)
            &&& (if m < 0 { -m } else { m }) < (if b < 0 { -(b as int) } else { b as int })
            &&& node_run(SpecNode::Divide(l, r), vars).output == seq![line_of(a, " / "@, b, q)]
            &&& node_run(SpecNode::Modulus(l, r), vars).output == seq![line_of(a, " % "@, b, m)]
            &&& node_run(SpecNode::Divide(l, r), vars).status is Finished
            &&& node_run(SpecNode::Modulus(l, r), vars).status is Finished
        },
{
    let q = crate::interpreter::trunc_div(a as int, b as int);
    let m = crate::interpreter::trunc_rem(a as int, b as int);
    crate::laws::lemma_division_identity(a as int, b as int);
    let x = crate::interpreter::abs(a as int);
    let y = crate::interpreter::abs(b as int);
    assert(x / y <= x) by (nonlinear_arith)
        requires
            y >= 1,
            x >= 0,
    ;
    assert(x / y >= 0) by (nonlinear_arith)
        requires
            y >= 1,
            x >= 0,
    ;
    if x / y == 0x8000_0000 {
        assert(x == 0x8000_0000);
        assert(y == 1) by (nonlinear_arith)
            requires
                y >= 1,
                x == 0x8000_0000,
                x / y == 0x8000_0000,
        ;
    }
    assert(i32::MIN <= q <= i32::MAX);
    assert(node_run(SpecNode::Divide(l, r), vars).output == seq![line_of(a, " / "@, b, q)]);
    assert(node_run(SpecNode::Modulus(l, r), vars).output == seq![line_of(a, " % "@, b, m)]);
}

/// A block with no statements prints nothing and finishes; a block of one
/// statement runs as that statement.
pub proof fn lemma_small_blocks(n: SpecNode, vars: Map<Seq<char>, i32>)
    ensures
        block_run(Seq::empty(), vars).output.len() == 0,
        block_run(Seq::empty(), vars).vars == vars,
        block_run(Seq::empty(), vars).status is Finished,
        block_run(seq![n], vars) == node_run(n, vars),
{
    let one = seq![n];
    assert(one.drop_first() =~= Seq::<SpecNode>::empty());
    let first = node_run(n, vars);
    assert(one[0] == n);
    if first.status is Finished {
        let rest = block_run(one.drop_first(), first.vars);
        assert(rest == block_run(Seq::<SpecNode>::empty(), first.vars));
        assert(first.output + rest.output =~= first.output);
    }
}

} // verus!
