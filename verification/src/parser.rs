//! The parser: tokens to a syntax tree, reading tokens one at a time from a
//! stream.
use vstd::prelude::*;
use vstd::string::*;
use crate::ast::{block_view, node_view, ASTNode, Condition, SpecCondition, SpecNode, SpecValue, Value};
use crate::token::{token_debug, token_debug_text, tokens_view, SpecToken, Token};

verus! {

/// The tokens after the first, or none when there are none.
pub open spec fn skip_one(ts: Seq<SpecToken>) -> Seq<SpecToken> {
    if ts.len() > 0 {
        ts.drop_first()
    } else {
        ts
    }
}

/// The operand a token stands for: a number or an identifier.
pub open spec fn value_spec(t: SpecToken) -> Option<SpecValue> {
    match t {
        SpecToken::Number(n) => Some(SpecValue::Number(n)),
        SpecToken::Identifier(s) => Some(SpecValue::Variable(s)),
        _ => None,
    }
}

/// The comparison that an operator token makes of two operands.
pub open spec fn comparison_spec(op: SpecToken, l: SpecValue, r: SpecValue) -> Option<SpecCondition> {
    match op {
        SpecToken::Equals => Some(SpecCondition::Equals(l, r)),
        SpecToken::NotEquals => Some(SpecCondition::NotEquals(l, r)),
        SpecToken::LessThan => Some(SpecCondition::LessThan(l, r)),
        SpecToken::GreaterThan => Some(SpecCondition::GreaterThan(l, r)),
        SpecToken::LessThanOrEqual => Some(SpecCondition::LessThanOrEqual(l, r)),
        SpecToken::GreaterThanOrEqual => Some(SpecCondition::GreaterThanOrEqual(l, r)),
        _ => None,
    }
}

/// A condition: left operand, comparison operator, right operand. Gives the
/// result and the tokens left unread.
pub open spec fn condition_spec(ts: Seq<SpecToken>) -> (Result<SpecCondition, Seq<char>>, Seq<SpecToken>) {
    if ts.len() == 0 {
        (Err("Expected left operand in condition"@), ts)
    } else {
        match value_spec(ts[0]) {
            None => (Err("Invalid left operand in condition"@), ts.skip(1)),
            Some(lhs) => if ts.len() < 2 {
                (Err("Expected comparison operator"@), ts.skip(1))
            } else if ts.len() < 3 {
                (Err("Expected right operand in condition"@), ts.skip(2))
            } else {
                match value_spec(ts[2]) {
                    None => (Err("Invalid right operand in condition"@), ts.skip(3)),
                    Some(rhs) => match comparison_spec(ts[1], lhs, rhs) {
                        Some(c) => (Ok(c), ts.skip(3)),
                        None => (Err("Invalid comparison operator: "@ + token_debug_text(ts[1])), ts.skip(3)),
                    },
                }
            },
        }
    }
}

/// The arithmetic statement that an operator token makes of two operands.
pub open spec fn arithmetic_spec(op: SpecToken, l: SpecValue, r: SpecValue) -> SpecNode {
    match op {
        SpecToken::Add => SpecNode::Add(l, r),
        SpecToken::Subtract => SpecNode::Subtract(l, r),
        SpecToken::Multiply => SpecNode::Multiply(l, r),
        SpecToken::Divide => SpecNode::Divide(l, r),
        _ => SpecNode::Modulus(l, r),
    }
}

/// Whether a token starts an arithmetic statement.
pub open spec fn is_arithmetic(t: SpecToken) -> bool {
    t is Add || t is Subtract || t is Multiply || t is Divide || t is Modulus
}

/// One statement. Gives the result and the tokens left unread.
///
/// The tests that what is left is shorter than `ts` only make the
/// recursion visibly well founded: they always hold (see
/// `lemma_statement_progress`), so their `else` branches are never taken.
pub open spec fn statement_spec(ts: Seq<SpecToken>) -> (Result<SpecNode, Seq<char>>, Seq<SpecToken>)
    decreases ts.len(), 0nat,
{
    if ts.len() == 0 {
        (Err("Expected statement"@), ts)
    } else {
        let rest = ts.drop_first();
        match ts[0] {
            SpecToken::Print => match (if rest.len() > 0 { Some(rest[0]) } else { None }) {
                Some(SpecToken::String(text)) => (Ok(SpecNode::Print(text)), rest.drop_first()),
                _ => (Err("Expected string after 'print'"@), skip_one(rest)),
            },
            SpecToken::Let => if !(rest.len() > 0 && rest[0] is Identifier) {
                (Err("Expected variable name after 'let'"@), skip_one(rest))
            } else if !(rest.len() > 1 && rest[1] is Assign) {
                (Err("Expected '=' after variable name in let statement"@), skip_one(rest.drop_first()))
            } else if !(rest.len() > 2 && rest[2] is Number) {
                (Err("Expected number after '=' in let statement"@), skip_one(rest.skip(2)))
            } else {
                (Ok(SpecNode::Let(rest[0]->Identifier_0, rest[2]->Number_0)), rest.skip(3))
            },
            SpecToken::If => {
                let (c, r1) = condition_spec(rest);
                match c {
                    Err(e) => (Err(e), r1),
                    Ok(cond) => if r1.len() < ts.len() {
                        let (t, r2) = block_spec(r1);
                        match t {
                            Err(e) => (Err(e), r2),
                            Ok(then_block) => if r2.len() > 0 && r2[0] is Else && r2.len() < ts.len() {
                                let (e, r3) = block_spec(r2.drop_first());
                                match e {
                                    Err(msg) => (Err(msg), r3),
                                    Ok(else_block) => (Ok(SpecNode::If(cond, then_block, Some(else_block))), r3),
                                }
                            } else {
                                (Ok(SpecNode::If(cond, then_block, None)), r2)
                            },
                        }
                    } else {
                        (Err(Seq::empty()), r1)
                    },
                }
            },
            SpecToken::Add | SpecToken::Subtract | SpecToken::Multiply | SpecToken::Divide | SpecToken::Modulus => {
                if rest.len() == 0 {
                    (Err("Expected first operand"@), rest)
                } else if rest.len() == 1 {
                    (Err("Expected second operand"@), rest.skip(1))
                } else {
                    match (value_spec(rest[0]), value_spec(rest[1])) {
                        (None, _) => (Err("Invalid first operand"@), rest.skip(2)),
                        (Some(_), None) => (Err("Invalid second operand"@), rest.skip(2)),
                        (Some(l), Some(r)) => (Ok(arithmetic_spec(ts[0], l, r)), rest.skip(2)),
                    }
                }
            },
            _ => (Err("Unexpected token: "@ + token_debug_text(ts[0])), rest),
        }
    }
}

/// A block: `{`, statements, and the `}` that closes it; the end of the
/// input closes it too. Gives the result and the tokens left unread.
pub open spec fn block_spec(ts: Seq<SpecToken>) -> (Result<Seq<SpecNode>, Seq<char>>, Seq<SpecToken>)
    decreases ts.len(), 2nat,
{
    if ts.len() == 0 || !(ts[0] is LeftBrace) {
        (Err("Expected '{' to start block"@), skip_one(ts))
    } else {
        block_items_spec(ts.drop_first())
    }
}

/// The statements of a block after its `{`, through the `}` that closes it.
/// The length test always holds, as in [`statement_spec`].
pub open spec fn block_items_spec(ts: Seq<SpecToken>) -> (Result<Seq<SpecNode>, Seq<char>>, Seq<SpecToken>)
    decreases ts.len(), 1nat,
{
    if ts.len() == 0 {
        (Ok(Seq::empty()), ts)
    } else if ts[0] is RightBrace {
        (Ok(Seq::empty()), ts.drop_first())
    } else {
        let (s, r) = statement_spec(ts);
        match s {
            Err(e) => (Err(e), r),
            Ok(n) => if r.len() < ts.len() {
                let (b, r2) = block_items_spec(r);
                match b {
                    Err(e) => (Err(e), r2),
                    Ok(ns) => (Ok(seq![n] + ns), r2),
                }
            } else {
                (Err(Seq::empty()), r)
            },
        }
    }
}

/// A whole program: statements until the tokens run out. The length test
/// always holds, as in [`statement_spec`].
pub open spec fn program_spec(ts: Seq<SpecToken>) -> Result<Seq<SpecNode>, Seq<char>>
    decreases ts.len(),
{
    if ts.len() == 0 {
        Ok(Seq::empty())
    } else {
        let (s, r) = statement_spec(ts);
        match s {
            Err(e) => Err(e),
            Ok(n) => if r.len() < ts.len() {
                match program_spec(r) {
                    Err(e) => Err(e),
                    Ok(ns) => Ok(seq![n] + ns),
                }
            } else {
                Err(Seq::empty())
            },
        }
    }
}


/// A condition reads no more tokens than there are.
pub proof fn lemma_condition_progress(ts: Seq<SpecToken>)
    ensures
        condition_spec(ts).1.len() <= ts.len(),
{
}

/// A statement reads at least one token when there is one, and no more
/// tokens than there are.
pub proof fn lemma_statement_progress(ts: Seq<SpecToken>)
    ensures
        statement_spec(ts).1.len() <= ts.len(),
        ts.len() > 0 ==> statement_spec(ts).1.len() < ts.len(),
    decreases ts.len(), 0nat,
{
    if ts.len() > 0 {
        let rest = ts.drop_first();
        if ts[0] is If {
            lemma_condition_progress(rest);
            let (c, r1) = condition_spec(rest);
            if c is Ok {
                lemma_block_progress(r1);
                let (t, r2) = block_spec(r1);
                if t is Ok && r2.len() > 0 && r2[0] is Else {
                    lemma_block_progress(r2.drop_first());
                }
            }
        }
    }
}

/// A block reads at least one token when there is one, and no more tokens
/// than there are.
pub proof fn lemma_block_progress(ts: Seq<SpecToken>)
    ensures
        block_spec(ts).1.len() <= ts.len(),
        ts.len() > 0 ==> block_spec(ts).1.len() < ts.len(),
    decreases ts.len(), 2nat,
{
    if ts.len() > 0 && ts[0] is LeftBrace {
        lemma_items_progress(ts.drop_first());
    }
}

/// The statements of a block read no more tokens than there are.
pub proof fn lemma_items_progress(ts: Seq<SpecToken>)
    ensures
        block_items_spec(ts).1.len() <= ts.len(),
    decreases ts.len(), 1nat,
{
    if ts.len() > 0 && !(ts[0] is RightBrace) {
        lemma_statement_progress(ts);
        let (s, r) = statement_spec(ts);
        if s is Ok {
            lemma_items_progress(r);
        }
    }
}


/// Appending tokens to a sequence extends every suffix of it.
proof fn lemma_skip_append(ts: Seq<SpecToken>, more: Seq<SpecToken>, k: int)
    requires
        0 <= k <= ts.len(),
    ensures
        (ts + more).skip(k) == ts.skip(k) + more,
{
    assert((ts + more).skip(k) =~= ts.skip(k) + more);
}

/// A condition whose reading leaves tokens unread reads the same from any
/// longer input, leaving the extra tokens unread too.
pub proof fn lemma_condition_extend(ts: Seq<SpecToken>, more: Seq<SpecToken>)
    requires
        condition_spec(ts).1.len() > 0,
    ensures
        condition_spec(ts + more) == (condition_spec(ts).0, condition_spec(ts).1 + more),
{
    let all = ts + more;
    assert(all[0] == ts[0]);
    if ts.len() > 1 {
        assert(all[1] == ts[1]);
    }
    if ts.len() > 2 {
        assert(all[2] == ts[2]);
    }
    lemma_skip_append(ts, more, 1);
    if ts.len() >= 2 {
        lemma_skip_append(ts, more, 2);
    }
    if ts.len() >= 3 {
        lemma_skip_append(ts, more, 3);
    }
}

/// A statement whose parse leaves tokens unread never looked past them: it
/// parses the same from any longer input, leaving the extra tokens unread
/// too.
pub proof fn lemma_statement_extend(ts: Seq<SpecToken>, more: Seq<SpecToken>)
    requires
        statement_spec(ts).1.len() > 0,
    ensures
        statement_spec(ts + more) == (statement_spec(ts).0, statement_spec(ts).1 + more),
    decreases ts.len(), 0nat,
{
    let all = ts + more;
    let rest = ts.drop_first();
    assert(all[0] == ts[0]);
    assert(all.drop_first() =~= rest + more);
    let arest = all.drop_first();
    if rest.len() > 0 {
        assert(arest[0] == rest[0]);
        lemma_skip_append(rest, more, 1);
        assert(rest.drop_first() =~= rest.skip(1));
        assert(arest.drop_first() =~= arest.skip(1));
    }
    if rest.len() > 1 {
        assert(arest[1] == rest[1]);
        lemma_skip_append(rest, more, 2);
        assert(rest.drop_first().drop_first() =~= rest.skip(2));
        assert(arest.drop_first().drop_first() =~= arest.skip(2));
    }
    if rest.len() > 2 {
        assert(arest[2] == rest[2]);
        lemma_skip_append(rest, more, 3);
        assert(rest.skip(2).drop_first() =~= rest.skip(3));
        assert(arest.skip(2).drop_first() =~= arest.skip(3));
    }
    if ts[0] is If {
        lemma_condition_progress(rest);
        let (c, r1) = condition_spec(rest);
        if c is Ok {
            lemma_condition_extend(rest, more);
            lemma_block_progress(r1);
            let (t, r2) = block_spec(r1);
            if r1.len() == 0 {
                assert(false);
            }
            lemma_block_extend(r1, more);
            if t is Ok {
                if r2.len() > 0 {
                    assert((r2 + more)[0] == r2[0]);
                    if r2[0] is Else {
                        assert((r2 + more).drop_first() =~= r2.drop_first() + more);
                        lemma_block_progress(r2.drop_first());
                        lemma_block_extend(r2.drop_first(), more);
                    }
                }
            }
        } else {
            lemma_condition_extend(rest, more);
        }
    }
}

/// A block whose parse leaves tokens unread parses the same from any longer
/// input, leaving the extra tokens unread too.
pub proof fn lemma_block_extend(ts: Seq<SpecToken>, more: Seq<SpecToken>)
    requires
        block_spec(ts).1.len() > 0,
    ensures
        block_spec(ts + more) == (block_spec(ts).0, block_spec(ts).1 + more),
    decreases ts.len(), 2nat,
{
    let all = ts + more;
    assert(all[0] == ts[0]);
    assert(all.drop_first() =~= ts.drop_first() + more);
    if ts[0] is LeftBrace {
        lemma_items_extend(ts.drop_first(), more);
    }
}

/// The statements of a block, read up to tokens left unread, read the same
/// from any longer input.
pub proof fn lemma_items_extend(ts: Seq<SpecToken>, more: Seq<SpecToken>)
    requires
        block_items_spec(ts).1.len() > 0,
    ensures
        block_items_spec(ts + more) == (block_items_spec(ts).0, block_items_spec(ts).1 + more),
    decreases ts.len(), 1nat,
{
    let all = ts + more;
    assert(all[0] == ts[0]);
    assert(all.drop_first() =~= ts.drop_first() + more);
    if !(ts[0] is RightBrace) {
        lemma_statement_progress(ts);
        let (s, r) = statement_spec(ts);
        if r.len() == 0 {
            lemma_items_progress(r);
            assert(false);
        }
        lemma_statement_extend(ts, more);
        if s is Ok {
            lemma_items_progress(r);
            lemma_items_extend(r, more);
        }
    }
}

/// How a token changes the nesting of blocks: `{` opens one, `}` closes
/// one.
pub open spec fn brace_delta(t: SpecToken) -> int {
    if t is LeftBrace {
        1
    } else if t is RightBrace {
        -1
    } else {
        0
    }
}

/// The number of `{` tokens less the number of `}` tokens.
pub open spec fn brace_balance(ts: Seq<SpecToken>) -> int
    decreases ts.len(),
{
    if ts.len() == 0 {
        0
    } else {
        brace_delta(ts[0]) + brace_balance(ts.drop_first())
    }
}

/// Reading tokens that are not braces leaves the balance of what remains
/// as it was.
proof fn lemma_balance_unbraced_prefix(ts: Seq<SpecToken>, k: int)
    requires
        0 <= k <= ts.len(),
        forall|i: int| 0 <= i < k ==> brace_delta(#[trigger] ts[i]) == 0,
    ensures
        brace_balance(ts.skip(k)) == brace_balance(ts),
    decreases k,
{
    if k == 0 {
        assert(ts.skip(0) =~= ts);
    } else {
        let t = ts.drop_first();
        assert forall|i: int| 0 <= i < k - 1 implies brace_delta(#[trigger] t[i]) == 0 by {
            assert(t[i] == ts[i + 1]);
        }
        lemma_balance_unbraced_prefix(t, k - 1);
        assert(t.skip(k - 1) =~= ts.skip(k));
    }
}

/// A statement parsed from `ts` reads as many `{` as `}` or more; and when
/// it reads as many and reads all of `ts`, appending tokens that do not
/// start with `else` leaves its parse as it was, the appended tokens
/// unread.
pub proof fn lemma_statement_balance(ts: Seq<SpecToken>, more: Seq<SpecToken>)
    requires
        statement_spec(ts).0 is Ok,
    ensures
        brace_balance(ts) - brace_balance(statement_spec(ts).1) >= 0,
        brace_balance(ts) == brace_balance(statement_spec(ts).1) && statement_spec(ts).1.len() == 0
            && !(more.len() > 0 && more[0] is Else) ==> statement_spec(ts + more) == (
            statement_spec(ts).0,
            more,
        ),
    decreases ts.len(), 0nat,
{
    let all = ts + more;
    let rest = ts.drop_first();
    assert(all[0] == ts[0]);
    assert(all.drop_first() =~= rest + more);
    let arest = all.drop_first();
    let k: int = if ts[0] is Print {
        2
    } else if ts[0] is Let {
        4
    } else if ts[0] is If {
        4
    } else {
        3
    };
    assert(ts.len() >= k);
    assert forall|i: int| 0 <= i < k implies brace_delta(#[trigger] ts[i]) == 0 by {
        if i > 0 {
            assert(ts[i] == rest[i - 1]);
        }
    }
    lemma_balance_unbraced_prefix(ts, k);
    lemma_skip_append(ts, more, k);
    assert(rest.skip(k - 1) =~= ts.skip(k));
    assert(arest.skip(k - 1) =~= all.skip(k));
    assert(rest.drop_first() =~= rest.skip(1));
    assert(arest.drop_first() =~= arest.skip(1));
    if rest.len() >= 2 {
        assert(rest.skip(2) =~= rest.drop_first().drop_first());
        assert(arest.skip(2) =~= arest.drop_first().drop_first());
    }
    assert forall|i: int| 0 <= i < k - 1 implies arest[i] == #[trigger] rest[i] by {}
    if ts[0] is If {
        let (c, r1) = condition_spec(rest);
        assert(r1 == ts.skip(4));
        lemma_block_progress(r1);
        let (t, r2) = block_spec(r1);
        lemma_block_balance(r1, more);
        lemma_condition_extend(rest, more);
        let has_else = r2.len() > 0 && r2[0] is Else && r2.len() < ts.len();
        if has_else {
            let e_in = r2.drop_first();
            assert(brace_balance(r2) == brace_balance(e_in));
            lemma_block_progress(e_in);
            lemma_block_balance(e_in, more);
            if brace_balance(ts) == brace_balance(statement_spec(ts).1) && statement_spec(ts).1.len() == 0 {
                assert((r2 + more)[0] == r2[0]);
                assert((r2 + more).drop_first() =~= e_in + more);
                assert(block_spec(e_in).1 + more =~= more);
            }
        } else if r2.len() == 0 {
            assert(r2 + more =~= more);
        }
    }
}

/// A block parsed from `ts` reads as many `{` as `}` or more; when it reads
/// as many, appending tokens leaves its parse as it was, the appended
/// tokens unread.
pub proof fn lemma_block_balance(ts: Seq<SpecToken>, more: Seq<SpecToken>)
    requires
        block_spec(ts).0 is Ok,
    ensures
        brace_balance(ts) - brace_balance(block_spec(ts).1) >= 0,
        brace_balance(ts) == brace_balance(block_spec(ts).1) ==> block_spec(ts + more) == (
            block_spec(ts).0,
            block_spec(ts).1 + more,
        ),
    decreases ts.len(), 2nat,
{
    let all = ts + more;
    assert(all[0] == ts[0]);
    assert(all.drop_first() =~= ts.drop_first() + more);
    lemma_items_balance(ts.drop_first(), more);
}

/// The statements of a block read one `}` more than `{` at most; when they
/// read exactly one more (the `}` that closes the block), appending tokens
/// leaves their parse as it was, the appended tokens unread.
pub proof fn lemma_items_balance(ts: Seq<SpecToken>, more: Seq<SpecToken>)
    requires
        block_items_spec(ts).0 is Ok,
    ensures
        brace_balance(ts) - brace_balance(block_items_spec(ts).1) >= -1,
        brace_balance(ts) - brace_balance(block_items_spec(ts).1) == -1 ==> block_items_spec(ts + more) == (
            block_items_spec(ts).0,
            block_items_spec(ts).1 + more,
        ),
    decreases ts.len(), 1nat,
{
    if ts.len() == 0 {
        return;
    }
    let all = ts + more;
    assert(all[0] == ts[0]);
    assert(all.drop_first() =~= ts.drop_first() + more);
    if !(ts[0] is RightBrace) {
        lemma_statement_progress(ts);
        let (s, r) = statement_spec(ts);
        lemma_statement_balance(ts, more);
        lemma_items_balance(r, more);
        if brace_balance(ts) - brace_balance(block_items_spec(ts).1) == -1 {
            if r.len() == 0 {
                assert(block_items_spec(r).1 == r);
            }
            lemma_statement_extend(ts, more);
        }
    }
}

/// A program that parses reads as many `{` as `}` or more.
pub proof fn lemma_program_balance(ts: Seq<SpecToken>)
    requires
        program_spec(ts) is Ok,
    ensures
        brace_balance(ts) >= 0,
    decreases ts.len(),
{
    if ts.len() > 0 {
        lemma_statement_progress(ts);
        lemma_statement_balance(ts, Seq::empty());
        lemma_program_balance(statement_spec(ts).1);
    }
}

/// Programs concatenate: when `a` parses to `x` with every block it opens
/// closed (as many `{` as `}`), and `b` parses to `y`, then `a` followed by
/// `b` parses to `x` followed by `y`.
pub proof fn lemma_program_concat(a: Seq<SpecToken>, b: Seq<SpecToken>)
    requires
        program_spec(a) is Ok,
        program_spec(b) is Ok,
        brace_balance(a) == 0,
    ensures
        program_spec(a + b) == Ok::<Seq<SpecNode>, Seq<char>>(program_spec(a)->Ok_0 + program_spec(b)->Ok_0),
    decreases a.len(),
{
    let y = program_spec(b)->Ok_0;
    if a.len() == 0 {
        assert(a + b =~= b);
        assert(Seq::<SpecNode>::empty() + y =~= y);
        return;
    }
    let all = a + b;
    lemma_statement_progress(a);
    let (s, r) = statement_spec(a);
    let n = s->Ok_0;
    lemma_statement_balance(a, b);
    lemma_program_balance(r);
    let x1 = program_spec(r)->Ok_0;
    if r.len() > 0 {
        lemma_statement_extend(a, b);
        lemma_program_concat(r, b);
        assert(seq![n] + (x1 + y) =~= (seq![n] + x1) + y);
    } else {
        if b.len() > 0 {
            lemma_statement_progress(b);
            assert(!(b[0] is Else));
        }
        assert(program_spec(r) == Ok::<Seq<SpecNode>, Seq<char>>(Seq::empty()));
        assert(seq![n] + y =~= (seq![n] + Seq::<SpecNode>::empty()) + y);
    }
}

/// Tokens read one at a time from the front.
pub struct TokenStream {
    /// The tokens not read yet, the next one last.
    pending: Vec<Token>,
}

impl View for TokenStream {
    type V = Seq<SpecToken>;

    /// The tokens not read yet, in reading order.
    closed spec fn view(&self) -> Seq<SpecToken> {
        Seq::new(self.pending@.len(), |i: int| self.pending@[self.pending@.len() - 1 - i]@)
    }
}

impl TokenStream {
    /// A stream that yields `tokens` in order.
    pub fn new(tokens: Vec<Token>) -> (s: TokenStream)
        ensures
            s@ == tokens_view(tokens@),
    {
        let mut tokens = tokens;
        let ghost all = tokens@;
        let mut pending: Vec<Token> = Vec::new();
        while tokens.len() > 0
            invariant
                tokens@ == all.take(tokens@.len() as int),
                tokens@.len() + pending@.len() == all.len(),
                forall|i: int| 0 <= i < pending@.len() ==> #[trigger] pending@[i] == all[all.len() - 1 - i],
            decreases tokens@.len(),
        {
            let t = tokens.pop().unwrap();
            pending.push(t);
            assert(tokens@ =~= all.take(tokens@.len() as int));
        }
        let s = TokenStream { pending };
        assert(s@ =~= tokens_view(all));
        s
    }

    /// Reads the next token, if there is one.
    pub fn next(&mut self) -> (r: Option<Token>)
        ensures
            old(self)@.len() == 0 ==> r is None && final(self)@ == old(self)@,
            old(self)@.len() > 0 ==> (r matches Some(t) && t@ == old(self)@[0] && final(self)@
                == old(self)@.drop_first()),
    {
        let r = self.pending.pop();
        assert(self@ =~= old(self)@.drop_first() || old(self)@.len() == 0);
        r
    }

    /// The next token, left unread.
    pub fn peek(&self) -> (r: Option<&Token>)
        ensures
            self@.len() == 0 ==> r is None,
            self@.len() > 0 ==> (r matches Some(t) && t@ == self@[0]),
    {
        let n = self.pending.len();
        if n == 0 {
            None
        } else {
            Some(&self.pending[n - 1])
        }
    }
}

/// The view of a parse result with an error message.
pub open spec fn condition_result(r: Result<Condition, String>) -> Result<SpecCondition, Seq<char>> {
    match r {
        Ok(c) => Ok(c@),
        Err(e) => Err(e@),
    }
}

/// The view of a parse result with an error message.
pub open spec fn node_result(r: Result<ASTNode, String>) -> Result<SpecNode, Seq<char>> {
    match r {
        Ok(n) => Ok(n@),
        Err(e) => Err(e@),
    }
}

/// The view of a parse result with an error message.
pub open spec fn block_result(r: Result<Vec<ASTNode>, String>) -> Result<Seq<SpecNode>, Seq<char>> {
    match r {
        Ok(b) => Ok(block_view(b@)),
        Err(e) => Err(e@),
    }
}

/// The operand a token stands for: a number or an identifier.
pub fn parse_value(token: Token) -> (r: Option<Value>)
    ensures
        match r {
            Some(v) => value_spec(token@) == Some(v@),
            None => value_spec(token@) is None,
        },
{
    match token {
        Token::Number(n) => Some(Value::Number(n)),
        Token::Identifier(name) => Some(Value::Variable(name)),
        _ => None,
    }
}

/// Reads a condition: left operand, comparison operator, right operand.
pub fn parse_condition(iter: &mut TokenStream) -> (r: Result<Condition, String>)
    ensures
        (condition_result(r), final(iter)@) == condition_spec(old(iter)@),
{
    let ghost ts = iter@;
    let lhs_token = match iter.next() {
        Some(t) => t,
        None => return Err(String::from_str("Expected left operand in condition")),
    };
    assert(ts.skip(1) =~= ts.drop_first());
    let lhs = match parse_value(lhs_token) {
        Some(v) => v,
        None => return Err(String::from_str("Invalid left operand in condition")),
    };
    let op_token = match iter.next() {
        Some(t) => t,
        None => return Err(String::from_str("Expected comparison operator")),
    };
    assert(ts.skip(2) =~= ts.drop_first().drop_first());
    let rhs_token = match iter.next() {
        Some(t) => t,
        None => return Err(String::from_str("Expected right operand in condition")),
    };
    assert(ts.skip(3) =~= ts.drop_first().drop_first().drop_first());
    let rhs = match parse_value(rhs_token) {
        Some(v) => v,
        None => return Err(String::from_str("Invalid right operand in condition")),
    };
    match op_token {
        Token::Equals => Ok(Condition::Equals(lhs, rhs)),
        Token::NotEquals => Ok(Condition::NotEquals(lhs, rhs)),
        Token::LessThan => Ok(Condition::LessThan(lhs, rhs)),
        Token::GreaterThan => Ok(Condition::GreaterThan(lhs, rhs)),
        Token::LessThanOrEqual => Ok(Condition::LessThanOrEqual(lhs, rhs)),
        Token::GreaterThanOrEqual => Ok(Condition::GreaterThanOrEqual(lhs, rhs)),
        _ => {
            let mut msg = String::from_str("Invalid comparison operator: ");
            let text = token_debug(&op_token);
            msg.append(text.as_str());
            Err(msg)
        },
    }
}

/// The statements parsed so far in front of what the rest of the block
/// gives.
pub open spec fn after_nodes(
    done: Seq<SpecNode>,
    r: (Result<Seq<SpecNode>, Seq<char>>, Seq<SpecToken>),
) -> (Result<Seq<SpecNode>, Seq<char>>, Seq<SpecToken>) {
    match r.0 {
        Ok(ns) => (Ok(done + ns), r.1),
        Err(e) => (Err(e), r.1),
    }
}

proof fn lemma_block_view_push(b: Seq<ASTNode>, n: ASTNode)
    ensures
        block_view(b.push(n)) == block_view(b).push(n@),
{
    assert(b.push(n).drop_last() =~= b);
}

/// Reads a block: `{`, then statements up to the `}` that closes it or the
/// end of the tokens.
pub fn parse_block(iter: &mut TokenStream) -> (r: Result<Vec<ASTNode>, String>)
    ensures
        (block_result(r), final(iter)@) == block_spec(old(iter)@),
    decreases old(iter)@.len(), 1nat,
{
    let ghost ts = iter@;
    match iter.next() {
        Some(Token::LeftBrace) => {},
        _ => return Err(String::from_str("Expected '{' to start block")),
    }
    let mut block: Vec<ASTNode> = Vec::new();
    assert(after_nodes(Seq::empty(), block_items_spec(iter@)) =~= block_items_spec(iter@));
    loop
        invariant
            ts == old(iter)@,
            iter@.len() < ts.len(),
            block_spec(ts) == after_nodes(block_view(block@), block_items_spec(iter@)),
        decreases iter@.len(),
    {
        let ghost cur = iter@;
        let stop: u8 = match iter.peek() {
            None => 0,
            Some(Token::RightBrace) => 1,
            Some(_) => 2,
        };
        if stop == 0 {
            assert(block_items_spec(cur) == (Ok::<Seq<SpecNode>, Seq<char>>(Seq::empty()), cur));
            assert(block_view(block@) + Seq::<SpecNode>::empty() =~= block_view(block@));
            return Ok(block);
        } else if stop == 1 {
            iter.next();
            assert(block_items_spec(cur) == (Ok::<Seq<SpecNode>, Seq<char>>(Seq::empty()), cur.drop_first()));
            assert(block_view(block@) + Seq::<SpecNode>::empty() =~= block_view(block@));
            return Ok(block);
        }
        proof {
            lemma_statement_progress(cur);
        }
        let node = match parse_statement(iter) {
            Ok(n) => n,
            Err(e) => return Err(e),
        };
        proof {
            lemma_block_view_push(block@, node);
            let (b, r2) = block_items_spec(iter@);
            assert(block_view(block@) + (seq![node@] + b->Ok_0) =~= block_view(block@).push(node@) + b->Ok_0);
        }
        block.push(node);
    }
}

/// Reads one statement.
pub fn parse_statement(iter: &mut TokenStream) -> (r: Result<ASTNode, String>)
    ensures
        (node_result(r), final(iter)@) == statement_spec(old(iter)@),
    decreases old(iter)@.len(), 0nat,
{
    let ghost ts = iter@;
    let token = match iter.next() {
        Some(t) => t,
        None => return Err(String::from_str("Expected statement")),
    };
    let ghost rest = iter@;
    match token {
        Token::Print => {
            match iter.next() {
                Some(Token::String(text)) => Ok(ASTNode::Print(text)),
                _ => Err(String::from_str("Expected string after 'print'")),
            }
        },
        Token::Let => {
            let var = match iter.next() {
                Some(Token::Identifier(var)) => var,
                _ => return Err(String::from_str("Expected variable name after 'let'")),
            };
            match iter.next() {
                Some(Token::Assign) => {},
                _ => return Err(String::from_str("Expected '=' after variable name in let statement")),
            }
            assert(rest.skip(2) =~= rest.drop_first().drop_first());
            match iter.next() {
                Some(Token::Number(value)) => {
                    assert(rest.skip(3) =~= rest.skip(2).drop_first());
                    Ok(ASTNode::Let(var, value))
                },
                _ => Err(String::from_str("Expected number after '=' in let statement")),
            }
        },
        Token::If => {
            proof {
                lemma_condition_progress(rest);
            }
            let condition = match parse_condition(iter) {
                Ok(c) => c,
                Err(e) => return Err(e),
            };
            let ghost r1 = iter@;
            proof {
                lemma_block_progress(r1);
            }
            let then_block = match parse_block(iter) {
                Ok(b) => b,
                Err(e) => return Err(e),
            };
            let ghost r2 = iter@;
            let has_else = match iter.peek() {
                Some(Token::Else) => true,
                _ => false,
            };
            if has_else {
                iter.next();
                let else_block = match parse_block(iter) {
                    Ok(b) => b,
                    Err(e) => return Err(e),
                };
                Ok(ASTNode::If(condition, then_block, Some(else_block)))
            } else {
                Ok(ASTNode::If(condition, then_block, None))
            }
        },
        Token::Add | Token::Subtract | Token::Multiply | Token::Divide | Token::Modulus => {
            let lhs_token = match iter.next() {
                Some(t) => t,
                None => return Err(String::from_str("Expected first operand")),
            };
            assert(rest.skip(1) =~= rest.drop_first());
            let rhs_token = match iter.next() {
                Some(t) => t,
                None => return Err(String::from_str("Expected second operand")),
            };
            assert(rest.skip(2) =~= rest.drop_first().drop_first());
            let lhs = match parse_value(lhs_token) {
                Some(v) => v,
                None => return Err(String::from_str("Invalid first operand")),
            };
            let rhs = match parse_value(rhs_token) {
                Some(v) => v,
                None => return Err(String::from_str("Invalid second operand")),
            };
            match token {
                Token::Add => Ok(ASTNode::Add(lhs, rhs)),
                Token::Subtract => Ok(ASTNode::Subtract(lhs, rhs)),
                Token::Multiply => Ok(ASTNode::Multiply(lhs, rhs)),
                Token::Divide => Ok(ASTNode::Divide(lhs, rhs)),
                _ => Ok(ASTNode::Modulus(lhs, rhs)),
            }
        },
        _ => {
            let mut msg = String::from_str("Unexpected token: ");
            let text = token_debug(&token);
            msg.append(text.as_str());
            Err(msg)
        },
    }
}

/// Parses a whole program: statements until the tokens run out.
pub fn parser(tokens: Vec<Token>) -> (r: Result<Vec<ASTNode>, String>)
    ensures
        block_result(r) == program_spec(tokens_view(tokens@)),
{
    let mut ast: Vec<ASTNode> = Vec::new();
    let mut iter = TokenStream::new(tokens);
    let ghost ts = iter@;
    assert(block_view(ast@) + Seq::<SpecNode>::empty() =~= Seq::<SpecNode>::empty());
    loop
        invariant
            ts == tokens_view(tokens@),
            program_spec(ts) == match program_spec(iter@) {
                Ok(ns) => Ok(block_view(ast@) + ns),
                Err(e) => Err(e),
            },
        decreases iter@.len(),
    {
        let more = match iter.peek() {
            Some(_) => true,
            None => false,
        };
        if !more {
            assert(program_spec(iter@) == Ok::<Seq<SpecNode>, Seq<char>>(Seq::empty()));
            assert(block_view(ast@) + Seq::<SpecNode>::empty() =~= block_view(ast@));
            return Ok(ast);
        }
        let ghost cur = iter@;
        proof {
            lemma_statement_progress(cur);
        }
        let node = match parse_statement(&mut iter) {
            Ok(n) => n,
            Err(e) => return Err(e),
        };
        proof {
            lemma_block_view_push(ast@, node);
            match program_spec(iter@) {
                Ok(ns) => {
                    assert(block_view(ast@) + (seq![node@] + ns) =~= block_view(ast@).push(node@) + ns);
                },
                Err(_) => {},
            }
        }
        ast.push(node);
    }
}

} // verus!
