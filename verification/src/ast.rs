//! The syntax tree: values, conditions and statements, with their
//! mathematical views.
use vstd::prelude::*;

verus! {

/// An operand: a literal number or the name of a variable.
#[derive(Debug, Clone, PartialEq, Eq)]
pub enum Value {
    Number(i32),
    Variable(String),
}

/// A comparison between two operands.
#[derive(Debug, Clone, PartialEq, Eq)]
pub enum Condition {
    Equals(Value, Value),
    NotEquals(Value, Value),
    LessThan(Value, Value),
    GreaterThan(Value, Value),
    LessThanOrEqual(Value, Value),
    GreaterThanOrEqual(Value, Value),
}

/// A statement.
#[derive(Debug, PartialEq, Eq)]
pub enum ASTNode {
    Print(String),
    Let(String, i32),
    Add(Value, Value),
    Subtract(Value, Value),
    Multiply(Value, Value),
    Divide(Value, Value),
    Modulus(Value, Value),
    /// The condition, the statements run when it holds, and those run when
    /// it does not, if there are any.
    If(Condition, Vec<ASTNode>, Option<Vec<ASTNode>>),
}

/// The mathematical value of a [`Value`].
pub enum SpecValue {
    Number(i32),
    Variable(Seq<char>),
}

/// The mathematical value of a [`Condition`].
pub enum SpecCondition {
    Equals(SpecValue, SpecValue),
    NotEquals(SpecValue, SpecValue),
    LessThan(SpecValue, SpecValue),
    GreaterThan(SpecValue, SpecValue),
    LessThanOrEqual(SpecValue, SpecValue),
    GreaterThanOrEqual(SpecValue, SpecValue),
}

/// The mathematical value of an [`ASTNode`]: blocks are sequences.
pub enum SpecNode {
    Print(Seq<char>),
    Let(Seq<char>, i32),
    Add(SpecValue, SpecValue),
    Subtract(SpecValue, SpecValue),
    Multiply(SpecValue, SpecValue),
    Divide(SpecValue, SpecValue),
    Modulus(SpecValue, SpecValue),
    If(SpecCondition, Seq<SpecNode>, Option<Seq<SpecNode>>),
}

impl View for Value {
    type V = SpecValue;

    open spec fn view(&self) -> SpecValue {
        match self {
            Value::Number(n) => SpecValue::Number(*n),
            Value::Variable(s) => SpecValue::Variable(s@),
        }
    }
}

impl View for Condition {
    type V = SpecCondition;

    open spec fn view(&self) -> SpecCondition {
        match self {
            Condition::Equals(l, r) => SpecCondition::Equals(l@, r@),
            Condition::NotEquals(l, r) => SpecCondition::NotEquals(l@, r@),
            Condition::LessThan(l, r) => SpecCondition::LessThan(l@, r@),
            Condition::GreaterThan(l, r) => SpecCondition::GreaterThan(l@, r@),
            Condition::LessThanOrEqual(l, r) => SpecCondition::LessThanOrEqual(l@, r@),
            Condition::GreaterThanOrEqual(l, r) => SpecCondition::GreaterThanOrEqual(l@, r@),
        }
    }
}

/// The mathematical value of a statement.
pub open spec fn node_view(n: ASTNode) -> SpecNode
    decreases n,
{
    match n {
        ASTNode::Print(s) => SpecNode::Print(s@),
        ASTNode::Let(s, v) => SpecNode::Let(s@, v),
        ASTNode::Add(l, r) => SpecNode::Add(l@, r@),
        ASTNode::Subtract(l, r) => SpecNode::Subtract(l@, r@),
        ASTNode::Multiply(l, r) => SpecNode::Multiply(l@, r@),
        ASTNode::Divide(l, r) => SpecNode::Divide(l@, r@),
        ASTNode::Modulus(l, r) => SpecNode::Modulus(l@, r@),
        ASTNode::If(c, t, e) => SpecNode::If(
            c@,
            block_view(t@),
            match e {
                Some(b) => Some(block_view(b@)),
                None => None,
            },
        ),
    }
}

/// The mathematical value of a sequence of statements.
pub open spec fn block_view(b: Seq<ASTNode>) -> Seq<SpecNode>
    decreases b,
{
    if b.len() == 0 {
        Seq::empty()
    } else {
        block_view(b.drop_last()).push(node_view(b.last()))
    }
}

/// The view of a sequence of statements has one entry per statement.
pub proof fn lemma_block_view_index(b: Seq<ASTNode>)
    ensures
        block_view(b).len() == b.len(),
        forall|i: int| 0 <= i < b.len() ==> #[trigger] block_view(b)[i] == node_view(b[i]),
    decreases b.len(),
{
    if b.len() > 0 {
        lemma_block_view_index(b.drop_last());
        assert forall|i: int| 0 <= i < b.len() implies #[trigger] block_view(b)[i] == node_view(b[i]) by {
            if i < b.len() - 1 {
                assert(b[i] == b.drop_last()[i]);
            }
        }
    }
}

impl View for ASTNode {
    type V = SpecNode;

    open spec fn view(&self) -> SpecNode {
        node_view(*self)
    }
}

} // verus!
