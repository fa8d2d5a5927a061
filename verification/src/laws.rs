//! Properties of the language that hold across operations: how statements
//! compose, what a binding gives back, how comparisons relate, and how the
//! arithmetic of the interpreter agrees with `i32`'s.
use vstd::prelude::*;
use crate::ast::{SpecCondition, SpecNode, SpecValue};
use crate::numeric::parse_i32_spec;
use crate::token::SpecToken;
use crate::lexer::{
    after, identifier_chars, keyword_token, word_token, ends_word, is_separator, lemma_quote_len_bound, lemma_word_len_bound, lex_spec,
    quote_len, with_diagnostic, with_token, word_len, LexOutcome,
};
use crate::interpreter::{
    abs, after_lines, arith_run, block_run, evaluate_spec, node_run, resolve_spec, trunc_div,
    trunc_rem, ArithOp, Status,
};

verus! {

/// Running two blocks one after the other is running the first, then, if
/// it finished, the second from the variables the first left, with the
/// printed lines of both in order.
pub proof fn lemma_run_sequence(b1: Seq<SpecNode>, b2: Seq<SpecNode>, vars: Map<Seq<char>, i32>)
    ensures
        block_run(b1 + b2, vars) == ({
            let first = block_run(b1, vars);
            if first.status is Finished {
                after_lines(first.output, block_run(b2, first.vars))
            } else {
                first
            }
        }),
    decreases b1.len(),
{
    if b1.len() == 0 {
        assert(b1 + b2 =~= b2);
        assert(Seq::<Seq<char>>::empty() + block_run(b2, vars).output =~= block_run(b2, vars).output);
    } else {
        let s = b1 + b2;
        assert(s[0] == b1[0]);
        assert(s.drop_first() =~= b1.drop_first() + b2);
        let step = node_run(b1[0], vars);
        if step.status is Finished {
            lemma_run_sequence(b1.drop_first(), b2, step.vars);
            let rest1 = block_run(b1.drop_first(), step.vars);
            if rest1.status is Finished {
                let tail = block_run(b2, rest1.vars);
                assert(step.output + (rest1.output + tail.output) =~= (step.output + rest1.output) + tail.output);
            }
        }
    }
}

/// A `let` prints nothing and finishes; afterwards its variable reads as
/// the value bound and every other variable reads as before.
pub proof fn lemma_let_then_read(name: Seq<char>, value: i32, other: Seq<char>, vars: Map<Seq<char>, i32>)
    requires
        other != name,
    ensures
        node_run(SpecNode::Let(name, value), vars).output.len() == 0,
        node_run(SpecNode::Let(name, value), vars).status is Finished,
        resolve_spec(SpecValue::Variable(name), node_run(SpecNode::Let(name, value), vars).vars) == Ok::<i32, Seq<char>>(value),
        resolve_spec(SpecValue::Variable(other), node_run(SpecNode::Let(name, value), vars).vars)
            == resolve_spec(SpecValue::Variable(other), vars),
{
}

/// Only `let` and `if` statements change variables: printing and arithmetic
/// leave them as they were.
pub proof fn lemma_only_let_and_if_bind(n: SpecNode, vars: Map<Seq<char>, i32>)
    requires
        !(n is Let),
        !(n is If),
    ensures
        node_run(n, vars).vars == vars,
{
}

/// Reading a variable that was never bound fails with a message that names
/// it, and a statement that reads it prints nothing.
pub proof fn lemma_undefined_variable(op: ArithOp, name: Seq<char>, r: SpecValue, vars: Map<Seq<char>, i32>)
    requires
        !vars.contains_key(name),
    ensures
        resolve_spec(SpecValue::Variable(name), vars) == Err::<i32, Seq<char>>("Undefined variable: "@ + name),
        arith_run(op, SpecValue::Variable(name), r, vars).output.len() == 0,
        arith_run(op, SpecValue::Variable(name), r, vars).status == Status::Error("Undefined variable: "@ + name),
{
}

/// The negation of a comparison's result, keeping an error as it is.
pub open spec fn negated(r: Result<bool, Seq<char>>) -> Result<bool, Seq<char>> {
    match r {
        Ok(b) => Ok(!b),
        Err(e) => Err(e),
    }
}

/// `!=`, `>=` and `<=` are the negations of `==`, `<` and `>` on the same
/// operands, errors included.
pub proof fn lemma_comparison_negations(l: SpecValue, r: SpecValue, vars: Map<Seq<char>, i32>)
    ensures
        evaluate_spec(SpecCondition::NotEquals(l, r), vars) == negated(evaluate_spec(SpecCondition::Equals(l, r), vars)),
        evaluate_spec(SpecCondition::GreaterThanOrEqual(l, r), vars) == negated(evaluate_spec(SpecCondition::LessThan(l, r), vars)),
        evaluate_spec(SpecCondition::LessThanOrEqual(l, r), vars) == negated(evaluate_spec(SpecCondition::GreaterThan(l, r), vars)),
{
}

/// Where both operands have values, swapping them turns `<` into `>` and
/// `<=` into `>=`, and leaves `==` and `!=` as they are.
pub proof fn lemma_comparison_swaps(l: SpecValue, r: SpecValue, vars: Map<Seq<char>, i32>)
    requires
        resolve_spec(l, vars) is Ok,
        resolve_spec(r, vars) is Ok,
    ensures
        evaluate_spec(SpecCondition::LessThan(l, r), vars) == evaluate_spec(SpecCondition::GreaterThan(r, l), vars),
        evaluate_spec(SpecCondition::LessThanOrEqual(l, r), vars) == evaluate_spec(SpecCondition::GreaterThanOrEqual(r, l), vars),
        evaluate_spec(SpecCondition::Equals(l, r), vars) == evaluate_spec(SpecCondition::Equals(r, l), vars),
        evaluate_spec(SpecCondition::NotEquals(l, r), vars) == evaluate_spec(SpecCondition::NotEquals(r, l), vars),
{
}

/// Division and remainder agree: for a nonzero divisor the dividend is the
/// divisor times the quotient plus the remainder, and the remainder is
/// smaller than the divisor in magnitude and never of the opposite sign.
pub proof fn lemma_division_identity(a: int, b: int)
    requires
        b != 0,
    ensures
        a == b * trunc_div(a, b) + trunc_rem(a, b),
        abs(trunc_rem(a, b)) < abs(b),
        a >= 0 ==> trunc_rem(a, b) >= 0,
        a < 0 ==> trunc_rem(a, b) <= 0,
{
    let q = abs(a) / abs(b);
    let r = abs(a) % abs(b);
    assert(abs(a) == abs(b) * q + r && 0 <= r < abs(b)) by (nonlinear_arith)
        requires
            abs(b) > 0,
            q == abs(a) / abs(b),
            r == abs(a) % abs(b),
    ;
    if a < 0 && b < 0 {
        assert(a == b * q - r) by (nonlinear_arith)
            requires
                abs(a) == abs(b) * q + r,
                a == -abs(a),
                b == -abs(b),
        ;
    } else if a < 0 {
        assert(a == b * (-q) - r) by (nonlinear_arith)
            requires
                abs(a) == abs(b) * q + r,
                a == -abs(a),
                b == abs(b),
        ;
    } else if b < 0 {
        assert(a == b * (-q) + r) by (nonlinear_arith)
            requires
                abs(a) == abs(b) * q + r,
                a == abs(a),
                b == -abs(b),
        ;
    }
}


/// The number of double quotes in a character sequence.
pub open spec fn quote_count(s: Seq<char>) -> nat
    decreases s.len(),
{
    if s.len() == 0 {
        0
    } else {
        (if s[0] == '"' { 1nat } else { 0nat }) + quote_count(s.drop_first())
    }
}

/// What lexing two pieces of text one after the other gives: the second
/// piece's tokens and diagnostics after the first's.
pub open spec fn joined(o1: LexOutcome, o2: LexOutcome) -> LexOutcome {
    after(o1.tokens, o1.diagnostics, o2)
}

proof fn lemma_quote_count_concat(a: Seq<char>, b: Seq<char>)
    ensures
        quote_count(a + b) == quote_count(a) + quote_count(b),
    decreases a.len(),
{
    if a.len() == 0 {
        assert(a + b =~= b);
    } else {
        assert((a + b).drop_first() =~= a.drop_first() + b);
        lemma_quote_count_concat(a.drop_first(), b);
    }
}

proof fn lemma_quote_count_none(a: Seq<char>)
    requires
        forall|i: int| 0 <= i < a.len() ==> a[i] != '"',
    ensures
        quote_count(a) == 0,
    decreases a.len(),
{
    if a.len() > 0 {
        assert forall|i: int| 0 <= i < a.drop_first().len() implies a.drop_first()[i] != '"' by {
            assert(a.drop_first()[i] == a[i + 1]);
        }
        lemma_quote_count_none(a.drop_first());
    }
}

proof fn lemma_quote_len_concat(a: Seq<char>, b: Seq<char>)
    requires
        quote_len(a) < a.len(),
    ensures
        quote_len(a + b) == quote_len(a),
    decreases a.len(),
{
    if a[0] != '"' {
        assert((a + b).drop_first() =~= a.drop_first() + b);
        lemma_quote_len_concat(a.drop_first(), b);
    }
}

proof fn lemma_word_len_concat(a: Seq<char>, b: Seq<char>)
    requires
        word_len(a) < a.len() || (b.len() > 0 && ends_word(b[0])),
    ensures
        word_len(a + b) == word_len(a),
    decreases a.len(),
{
    if a.len() == 0 {
        assert((a + b)[0] == b[0]);
    } else if !ends_word(a[0]) {
        assert((a + b).drop_first() =~= a.drop_first() + b);
        lemma_word_len_concat(a.drop_first(), b);
    }
}

proof fn lemma_joined_token(t: crate::token::SpecToken, o: LexOutcome, o2: LexOutcome)
    ensures
        joined(with_token(t, o), o2) == with_token(t, joined(o, o2)),
{
    assert(seq![t] + (o.tokens + o2.tokens) =~= (seq![t] + o.tokens) + o2.tokens);
}

proof fn lemma_joined_diagnostic(d: Seq<char>, o: LexOutcome, o2: LexOutcome)
    ensures
        joined(with_diagnostic(d, o), o2) == with_diagnostic(d, joined(o, o2)),
{
    assert(seq![d] + (o.diagnostics + o2.diagnostics) =~= (seq![d] + o.diagnostics) + o2.diagnostics);
}

/// The text after the first `k` characters of `s1 + [c] + s2`, for `k` up
/// to the length of `s1`.
proof fn lemma_skip_concat(s1: Seq<char>, c: char, s2: Seq<char>, k: int)
    requires
        0 <= k <= s1.len(),
    ensures
        (s1 + seq![c] + s2).skip(k) == s1.skip(k) + seq![c] + s2,
        quote_count(s1) == quote_count(s1.take(k)) + quote_count(s1.skip(k)),
{
    assert((s1 + seq![c] + s2).skip(k) =~= s1.skip(k) + seq![c] + s2);
    assert(s1 =~= s1.take(k) + s1.skip(k));
    lemma_quote_count_concat(s1.take(k), s1.skip(k));
}

/// A separator between two pieces of text splits their lexing: lexing the
/// whole gives the tokens and diagnostics of the first piece followed by
/// those of the second, provided the first piece leaves no string open
/// (it holds an even number of double quotes).
pub proof fn lemma_lex_separator_split(s1: Seq<char>, c: char, s2: Seq<char>)
    requires
        is_separator(c),
        quote_count(s1) % 2 == 0,
    ensures
        lex_spec(s1 + seq![c] + s2) == joined(lex_spec(s1), lex_spec(s2)),
    decreases s1.len(),
{
    let s = s1 + seq![c] + s2;
    if s1.len() == 0 {
        assert(s.drop_first() =~= s2);
        let o2 = lex_spec(s2);
        assert(after(Seq::empty(), Seq::empty(), o2) =~= o2);
        return;
    }
    let x = s1[0];
    assert(s[0] == x);
    if s1.len() > 1 {
        assert(s[1] == s1[1]);
    } else {
        assert(s[1] == c);
    }
    if is_separator(x) {
        lemma_skip_concat(s1, c, s2, 1);
        assert(s1.drop_first() =~= s1.skip(1));
        assert(s.drop_first() =~= s.skip(1));
        assert(quote_count(s1.take(1)) == 0) by {
            assert(s1.take(1).drop_first() =~= Seq::<char>::empty());
        }
        lemma_lex_separator_split(s1.skip(1), c, s2);
    } else if x == '"' {
        let t1 = s1.drop_first();
        lemma_quote_len_bound(t1);
        let k = quote_len(t1) as int;
        assert(quote_count(s1) == 1 + quote_count(t1));
        if k == t1.len() {
            lemma_quote_count_none(t1);
            assert(false);
        }
        assert(s.drop_first() =~= t1 + (seq![c] + s2));
        lemma_quote_len_concat(t1, seq![c] + s2);
        assert(s.subrange(1, 1 + k) =~= s1.subrange(1, 1 + k));
        lemma_skip_concat(s1, c, s2, k + 2);
        assert(quote_count(s1.take(k + 2)) == 2) by {
            let body = s1.subrange(1, 1 + k);
            assert(t1[k] == '"');
            assert(s1[k + 1] == '"');
            assert(s1.take(k + 2) =~= seq!['"'] + body + seq!['"']);
            assert forall|i: int| 0 <= i < body.len() implies body[i] != '"' by {
                assert(body[i] == t1[i]);
            }
            lemma_quote_count_none(body);
            lemma_quote_count_concat(seq!['"'] + body, seq!['"']);
            lemma_quote_count_concat(seq!['"'], body);
            assert(seq!['"'].drop_first() =~= Seq::<char>::empty());
            assert(quote_count(Seq::<char>::empty()) == 0);
            assert(quote_count(seq!['"']) == 1);
        }
        lemma_lex_separator_split(s1.skip(k + 2), c, s2);
        lemma_joined_token(crate::token::SpecToken::String(s1.subrange(1, 1 + k)), lex_spec(s1.skip(k + 2)), lex_spec(s2));
    } else if x == '=' || x == '<' || x == '>' || x == '!' || x == '{' || x == '}' {
        let k: int = if (x == '=' || x == '<' || x == '>' || x == '!') && s1.len() > 1 && s1[1] == '=' { 2 } else { 1 };
        lemma_skip_concat(s1, c, s2, k);
        assert(quote_count(s1.take(k)) == 0) by {
            assert forall|i: int| 0 <= i < s1.take(k).len() implies s1.take(k)[i] != '"' by {}
            lemma_quote_count_none(s1.take(k));
        }
        lemma_lex_separator_split(s1.skip(k), c, s2);
        let o = lex_spec(s1.skip(k));
        let o2 = lex_spec(s2);
        if x == '!' && k == 1 {
            lemma_joined_diagnostic(crate::lexer::lone_bang_message(), o, o2);
        } else if x == '=' {
            lemma_joined_token(if k == 2 { crate::token::SpecToken::Equals } else { crate::token::SpecToken::Assign }, o, o2);
        } else if x == '<' {
            lemma_joined_token(if k == 2 { crate::token::SpecToken::LessThanOrEqual } else { crate::token::SpecToken::LessThan }, o, o2);
        } else if x == '>' {
            lemma_joined_token(if k == 2 { crate::token::SpecToken::GreaterThanOrEqual } else { crate::token::SpecToken::GreaterThan }, o, o2);
        } else if x == '!' {
            lemma_joined_token(crate::token::SpecToken::NotEquals, o, o2);
        } else if x == '{' {
            lemma_joined_token(crate::token::SpecToken::LeftBrace, o, o2);
        } else {
            lemma_joined_token(crate::token::SpecToken::RightBrace, o, o2);
        }
    } else {
        lemma_word_len_bound(s1);
        lemma_word_len_concat(s1, seq![c] + s2);
        assert(s =~= s1 + (seq![c] + s2));
        let n = word_len(s1) as int;
        assert(s.take(n) =~= s1.take(n));
        lemma_skip_concat(s1, c, s2, n);
        assert(quote_count(s1.take(n)) == 0) by {
            assert forall|i: int| 0 <= i < s1.take(n).len() implies s1.take(n)[i] != '"' by {
                assert(!ends_word(s1[i]));
            }
            lemma_quote_count_none(s1.take(n));
        }
        lemma_lex_separator_split(s1.skip(n), c, s2);
        let w = s1.take(n);
        let o = lex_spec(s1.skip(n));
        let o2 = lex_spec(s2);
        match crate::lexer::word_token(w) {
            Some(t) => lemma_joined_token(t, o, o2),
            None => lemma_joined_diagnostic(crate::lexer::unknown_word_message(w), o, o2),
        }
    }
}


/// What the lexer guarantees of a token: an identifier is a nonempty word
/// of alphanumerics and underscores that is neither a reserved word nor a
/// number; a string holds no double quote.
pub open spec fn token_well_formed(t: SpecToken) -> bool {
    match t {
        SpecToken::Identifier(w) => {
            &&& w.len() > 0
            &&& identifier_chars(w)
            &&& keyword_token(w) is None
            &&& parse_i32_spec(w) is None
            &&& forall|i: int| 0 <= i < w.len() ==> !ends_word(#[trigger] w[i])
        },
        SpecToken::String(text) => forall|i: int| 0 <= i < text.len() ==> #[trigger] text[i] != '"',
        _ => true,
    }
}

proof fn lemma_with_token_well_formed(t: SpecToken, o: LexOutcome)
    requires
        token_well_formed(t),
        forall|i: int| 0 <= i < o.tokens.len() ==> token_well_formed(#[trigger] o.tokens[i]),
    ensures
        forall|i: int| 0 <= i < with_token(t, o).tokens.len() ==> token_well_formed(#[trigger] with_token(t, o).tokens[i]),
{
    assert forall|i: int| 0 <= i < with_token(t, o).tokens.len() implies token_well_formed(#[trigger] with_token(t, o).tokens[i]) by {
        if i > 0 {
            assert(with_token(t, o).tokens[i] == o.tokens[i - 1]);
        }
    }
}

/// Every token of the sequence is well formed.
pub open spec fn all_well_formed(ts: Seq<SpecToken>) -> bool {
    forall|i: int| 0 <= i < ts.len() ==> token_well_formed(#[trigger] ts[i])
}

/// Every token the lexer gives is well formed.
pub proof fn lemma_lex_tokens_well_formed(cs: Seq<char>)
    ensures
        forall|i: int| 0 <= i < lex_spec(cs).tokens.len() ==> token_well_formed(#[trigger] lex_spec(cs).tokens[i]),
    decreases cs.len(),
{
    if cs.len() == 0 {
        return;
    }
    let x = cs[0];
    if is_separator(x) {
        lemma_lex_tokens_well_formed(cs.drop_first());
        assert(lex_spec(cs) == lex_spec(cs.drop_first()));
    } else if x == '"' {
        let t1 = cs.drop_first();
        lemma_quote_len_bound(t1);
        let k = quote_len(t1) as int;
        let body = cs.subrange(1, 1 + k);
        assert forall|i: int| 0 <= i < body.len() implies #[trigger] body[i] != '"' by {
            assert(body[i] == t1[i]);
        }
        let rest = if 1 + k < cs.len() { cs.skip(k + 2) } else { Seq::<char>::empty() };
        lemma_lex_tokens_well_formed(rest);
        lemma_with_token_well_formed(SpecToken::String(body), lex_spec(rest));
        assert(lex_spec(cs) == with_token(SpecToken::String(body), lex_spec(rest)));
        assert(all_well_formed(lex_spec(cs).tokens));
    } else if x == '=' || x == '<' || x == '>' || x == '!' || x == '{' || x == '}' {
        let k: int = if (x == '=' || x == '<' || x == '>' || x == '!') && cs.len() > 1 && cs[1] == '=' { 2 } else { 1 };
        lemma_lex_tokens_well_formed(cs.skip(k));
        let o = lex_spec(cs.skip(k));
        if x == '=' {
            lemma_with_token_well_formed(if k == 2 { SpecToken::Equals } else { SpecToken::Assign }, o);
        } else if x == '<' {
            lemma_with_token_well_formed(if k == 2 { SpecToken::LessThanOrEqual } else { SpecToken::LessThan }, o);
        } else if x == '>' {
            lemma_with_token_well_formed(if k == 2 { SpecToken::GreaterThanOrEqual } else { SpecToken::GreaterThan }, o);
        } else if x == '!' && k == 2 {
            lemma_with_token_well_formed(SpecToken::NotEquals, o);
        } else if x == '{' {
            lemma_with_token_well_formed(SpecToken::LeftBrace, o);
        } else if x == '}' {
            lemma_with_token_well_formed(SpecToken::RightBrace, o);
        } else {
            assert(lex_spec(cs).tokens == o.tokens);
        }
        assert(all_well_formed(lex_spec(cs).tokens));
    } else {
        lemma_word_len_bound(cs);
        let n = word_len(cs) as int;
        let w = cs.take(n);
        lemma_lex_tokens_well_formed(cs.skip(n));
        match word_token(w) {
            Some(t) => {
                assert forall|i: int| 0 <= i < w.len() implies !ends_word(#[trigger] w[i]) by {
                    assert(w[i] == cs[i]);
                }
                assert(token_well_formed(t));
                lemma_with_token_well_formed(t, lex_spec(cs.skip(n)));
                assert(lex_spec(cs) == with_token(t, lex_spec(cs.skip(n))));
                assert(all_well_formed(lex_spec(cs).tokens));
            },
            None => {
                assert(lex_spec(cs).tokens == lex_spec(cs.skip(n)).tokens);
                assert(all_well_formed(lex_spec(cs).tokens));
            },
        }
    }
}

} // verus!
