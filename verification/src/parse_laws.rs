//! What parsing gives for each form of statement, stated over the tokens
//! read and the tree built: operands in the order read, operators mapped
//! to their comparisons and statements, blocks and programs assembled from
//! their statements.
use vstd::prelude::*;
use crate::ast::{SpecCondition, SpecNode, SpecValue};
use crate::parser::{
    block_items_spec, block_spec, condition_spec, lemma_block_progress, lemma_statement_progress,
    program_spec, statement_spec,
};
use crate::token::SpecToken;

verus! {

/// The operand a token stands for: a number token is that number, an
/// identifier token is the variable of that name.
pub open spec fn operand_of(t: SpecToken) -> Option<SpecValue> {
    match t {
        SpecToken::Number(n) => Some(SpecValue::Number(n)),
        SpecToken::Identifier(s) => Some(SpecValue::Variable(s)),
        _ => None,
    }
}

/// A condition is the first operand read, the comparison its operator
/// names, and the second operand read, in that order; the tokens after the
/// three are left unread. Any other operator is refused.
pub proof fn lemma_condition_forms(t1: SpecToken, op: SpecToken, t2: SpecToken, rest: Seq<SpecToken>, a: SpecValue, b: SpecValue)
    requires
        operand_of(t1) == Some(a),
        operand_of(t2) == Some(b),
    ensures
        op is Equals ==> condition_spec(seq![t1, op, t2] + rest) == (Ok::<SpecCondition, Seq<char>>(SpecCondition::Equals(a, b)), rest),
        op is NotEquals ==> condition_spec(seq![t1, op, t2] + rest) == (Ok::<SpecCondition, Seq<char>>(SpecCondition::NotEquals(a, b)), rest),
        op is LessThan ==> condition_spec(seq![t1, op, t2] + rest) == (Ok::<SpecCondition, Seq<char>>(SpecCondition::LessThan(a, b)), rest),
        op is GreaterThan ==> condition_spec(seq![t1, op, t2] + rest) == (Ok::<SpecCondition, Seq<char>>(SpecCondition::GreaterThan(a, b)), rest),
        op is LessThanOrEqual ==> condition_spec(seq![t1, op, t2] + rest) == (Ok::<SpecCondition, Seq<char>>(SpecCondition::LessThanOrEqual(a, b)), rest),
        op is GreaterThanOrEqual ==> condition_spec(seq![t1, op, t2] + rest) == (Ok::<SpecCondition, Seq<char>>(SpecCondition::GreaterThanOrEqual(a, b)), rest),
        !(op is Equals || op is NotEquals || op is LessThan || op is GreaterThan || op is LessThanOrEqual
            || op is GreaterThanOrEqual) ==> condition_spec(seq![t1, op, t2] + rest).0 is Err
            && condition_spec(seq![t1, op, t2] + rest).1 == rest,
{
    let ts = seq![t1, op, t2] + rest;
    assert(ts[0] == t1 && ts[1] == op && ts[2] == t2);
    assert(ts.skip(3) =~= rest);
}

/// `print` takes the string that follows it; `let` takes a name, `=` and a
/// number; an arithmetic statement takes two operands, the first read
/// first. The tokens after the statement are left unread.
pub proof fn lemma_simple_statements(
    t1: SpecToken,
    t2: SpecToken,
    rest: Seq<SpecToken>,
    a: SpecValue,
    b: SpecValue,
    text: Seq<char>,
    name: Seq<char>,
    v: i32,
)
    requires
        operand_of(t1) == Some(a),
        operand_of(t2) == Some(b),
    ensures
        statement_spec(seq![SpecToken::Print, SpecToken::String(text)] + rest) == (Ok::<SpecNode, Seq<char>>(SpecNode::Print(text)), rest),
        statement_spec(seq![SpecToken::Let, SpecToken::Identifier(name), SpecToken::Assign, SpecToken::Number(v)] + rest)
            == (Ok::<SpecNode, Seq<char>>(SpecNode::Let(name, v)), rest),
        statement_spec(seq![SpecToken::Add, t1, t2] + rest) == (Ok::<SpecNode, Seq<char>>(SpecNode::Add(a, b)), rest),
        statement_spec(seq![SpecToken::Subtract, t1, t2] + rest) == (Ok::<SpecNode, Seq<char>>(SpecNode::Subtract(a, b)), rest),
        statement_spec(seq![SpecToken::Multiply, t1, t2] + rest) == (Ok::<SpecNode, Seq<char>>(SpecNode::Multiply(a, b)), rest),
        statement_spec(seq![SpecToken::Divide, t1, t2] + rest) == (Ok::<SpecNode, Seq<char>>(SpecNode::Divide(a, b)), rest),
        statement_spec(seq![SpecToken::Modulus, t1, t2] + rest) == (Ok::<SpecNode, Seq<char>>(SpecNode::Modulus(a, b)), rest),
{
    let p = seq![SpecToken::Print, SpecToken::String(text)] + rest;
    assert(p.drop_first()[0] == SpecToken::String(text));
    assert(p.drop_first().drop_first() =~= rest);
    let l = seq![SpecToken::Let, SpecToken::Identifier(name), SpecToken::Assign, SpecToken::Number(v)] + rest;
    let lr = l.drop_first();
    assert(lr[0] == SpecToken::Identifier(name) && lr[1] == SpecToken::Assign && lr[2] == SpecToken::Number(v));
    assert(lr.skip(3) =~= rest);
    let ops = seq![SpecToken::Add, SpecToken::Subtract, SpecToken::Multiply, SpecToken::Divide, SpecToken::Modulus];
    assert forall|i: int| 0 <= i < 5 implies ({
        let s = seq![#[trigger] ops[i], t1, t2] + rest;
        &&& s.drop_first()[0] == t1
        &&& s.drop_first()[1] == t2
        &&& s.drop_first().skip(2) =~= rest
    }) by {
        let s = seq![ops[i], t1, t2] + rest;
        assert(s.drop_first().skip(2) =~= rest);
    }
    assert(ops[0] == SpecToken::Add && ops[1] == SpecToken::Subtract && ops[2] == SpecToken::Multiply
        && ops[3] == SpecToken::Divide && ops[4] == SpecToken::Modulus);
}

/// An `if` is its condition, then the block that follows it, then, when
/// the next token is `else`, the block after that.
pub proof fn lemma_if_statement(
    cond_tokens: Seq<SpecToken>,
    body: Seq<SpecToken>,
    cond: SpecCondition,
    t: Seq<SpecNode>,
    r2: Seq<SpecToken>,
)
    requires
        cond_tokens.len() == 3,
        condition_spec(cond_tokens + body) == (Ok::<SpecCondition, Seq<char>>(cond), body),
        block_spec(body) == (Ok::<Seq<SpecNode>, Seq<char>>(t), r2),
    ensures
        !(r2.len() > 0 && r2[0] is Else) ==> statement_spec(seq![SpecToken::If] + cond_tokens + body) == (
            Ok::<SpecNode, Seq<char>>(SpecNode::If(cond, t, None)),
            r2,
        ),
        r2.len() > 0 && r2[0] is Else ==> (block_spec(r2.drop_first()) matches (Ok(e), r3) ==> statement_spec(
            seq![SpecToken::If] + cond_tokens + body,
        ) == (Ok::<SpecNode, Seq<char>>(SpecNode::If(cond, t, Some(e))), r3)),
{
    let ts = seq![SpecToken::If] + cond_tokens + body;
    assert(ts[0] == SpecToken::If);
    assert(ts.drop_first() =~= cond_tokens + body);
    lemma_block_progress(body);
}

/// A block is `{`, then statements read one after another, each from where
/// the last stopped, up to the `}` that closes it (or the end of the
/// tokens); anything else where the `{` should be is refused.
pub proof fn lemma_block_forms(ts: Seq<SpecToken>, rest: Seq<SpecToken>, n: SpecNode, ns: Seq<SpecNode>, r2: Seq<SpecToken>)
    ensures
        block_spec(seq![SpecToken::LeftBrace, SpecToken::RightBrace] + rest) == (
            Ok::<Seq<SpecNode>, Seq<char>>(Seq::empty()),
            rest,
        ),
        block_spec(seq![SpecToken::LeftBrace]) == (Ok::<Seq<SpecNode>, Seq<char>>(Seq::empty()), Seq::<SpecToken>::empty()),
        ts.len() > 0 && !(ts[0] is RightBrace) && statement_spec(ts).0 == Ok::<SpecNode, Seq<char>>(n) && block_spec(
            seq![SpecToken::LeftBrace] + statement_spec(ts).1,
        ) == (Ok::<Seq<SpecNode>, Seq<char>>(ns), r2) ==> block_spec(seq![SpecToken::LeftBrace] + ts) == (
            Ok::<Seq<SpecNode>, Seq<char>>(seq![n] + ns),
            r2,
        ),
        ts.len() > 0 && !(ts[0] is LeftBrace) ==> block_spec(ts).0 == Err::<Seq<SpecNode>, Seq<char>>(
            "Expected '{' to start block"@,
        ),
{
    let e = seq![SpecToken::LeftBrace, SpecToken::RightBrace] + rest;
    assert(e.drop_first()[0] == SpecToken::RightBrace);
    assert(e.drop_first().drop_first() =~= rest);
    assert(seq![SpecToken::LeftBrace].drop_first() =~= Seq::<SpecToken>::empty());
    let b = seq![SpecToken::LeftBrace] + ts;
    assert(b.drop_first() =~= ts);
    if ts.len() > 0 {
        lemma_statement_progress(ts);
        let r = statement_spec(ts).1;
        assert((seq![SpecToken::LeftBrace] + r).drop_first() =~= r);
    }
}

/// A program is its first statement followed by the program of the tokens
/// that statement leaves; no tokens make the empty program.
pub proof fn lemma_program_forms(ts: Seq<SpecToken>, n: SpecNode, ns: Seq<SpecNode>)
    ensures
        program_spec(Seq::empty()) == Ok::<Seq<SpecNode>, Seq<char>>(Seq::empty()),
        ts.len() > 0 && statement_spec(ts).0 == Ok::<SpecNode, Seq<char>>(n) && program_spec(statement_spec(ts).1)
            == Ok::<Seq<SpecNode>, Seq<char>>(ns) ==> program_spec(ts) == Ok::<Seq<SpecNode>, Seq<char>>(seq![n] + ns),
        ts.len() > 0 ==> (statement_spec(ts).0 matches Err(e) ==> program_spec(ts) == Err::<Seq<SpecNode>, Seq<char>>(e)),
{
    lemma_statement_progress(ts);
}

} // verus!
