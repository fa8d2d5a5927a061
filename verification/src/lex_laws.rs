//! What lexing gives for each kind of text, stated over characters and
//! tokens: where words end, what each word, operator and string becomes,
//! and that whitespace is skipped.
use vstd::prelude::*;
use crate::lexer::{ends_word, lex_spec, quote_len, word_len, LexOutcome};
use crate::numeric::{decimal_text, lemma_nat_digits, lemma_parse_decimal_roundtrip, is_digit};
use crate::text::{unicode_alphanumeric, unicode_whitespace};
use crate::token::SpecToken;

verus! {

/// The characters at which a word ends: whitespace, `"`, `{`, `}`, `=`,
/// `<`, `>` and `!`.
pub open spec fn delimiter(c: char) -> bool {
    unicode_whitespace(c) || c == '"' || c == '{' || c == '}' || c == '=' || c == '<' || c == '>' || c == '!'
}

/// A nonempty run of characters none of which is a delimiter.
pub open spec fn is_word(w: Seq<char>) -> bool {
    w.len() > 0 && forall|i: int| 0 <= i < w.len() ==> !delimiter(#[trigger] w[i])
}

/// Text that a word cannot continue into: empty, or starting with a
/// delimiter.
pub open spec fn word_stops(rest: Seq<char>) -> bool {
    rest.len() == 0 || delimiter(rest[0])
}

/// A token in front of what lexing some text gives.
pub open spec fn token_then(t: SpecToken, o: LexOutcome) -> LexOutcome {
    LexOutcome { tokens: seq![t] + o.tokens, diagnostics: o.diagnostics }
}

/// A diagnostic in front of what lexing some text gives.
pub open spec fn message_then(m: Seq<char>, o: LexOutcome) -> LexOutcome {
    LexOutcome { tokens: o.tokens, diagnostics: seq![m] + o.diagnostics }
}

/// What lexing one piece of text and then another gives.
pub open spec fn then(o1: LexOutcome, o2: LexOutcome) -> LexOutcome {
    LexOutcome { tokens: o1.tokens + o2.tokens, diagnostics: o1.diagnostics + o2.diagnostics }
}

proof fn lemma_word_len_exact(s: Seq<char>, k: int)
    requires
        0 <= k <= s.len(),
        forall|i: int| 0 <= i < k ==> !delimiter(#[trigger] s[i]),
        k == s.len() || delimiter(s[k]),
    ensures
        word_len(s) == k,
    decreases k,
{
    if k > 0 {
        let t = s.drop_first();
        assert forall|i: int| 0 <= i < k - 1 implies !delimiter(#[trigger] t[i]) by {
            assert(t[i] == s[i + 1]);
        }
        if k < s.len() {
            assert(t[k - 1] == s[k]);
        }
        lemma_word_len_exact(t, k - 1);
        assert(!delimiter(s[0]));
    }
}

proof fn lemma_quote_len_exact(s: Seq<char>, k: int)
    requires
        0 <= k <= s.len(),
        forall|i: int| 0 <= i < k ==> #[trigger] s[i] != '"',
        k == s.len() || s[k] == '"',
    ensures
        quote_len(s) == k,
    decreases k,
{
    if k > 0 {
        let t = s.drop_first();
        assert forall|i: int| 0 <= i < k - 1 implies #[trigger] t[i] != '"' by {
            assert(t[i] == s[i + 1]);
        }
        if k < s.len() {
            assert(t[k - 1] == s[k]);
        }
        lemma_quote_len_exact(t, k - 1);
        assert(s[0] != '"');
    }
}

/// Lexing a word followed by text it cannot continue into: the word's
/// token (or the message for it), then what the text gives.
proof fn lemma_word_step(w: Seq<char>, rest: Seq<char>)
    requires
        is_word(w),
        word_stops(rest),
    ensures
        lex_spec(w + rest) == (match crate::lexer::word_token(w) {
            Some(t) => token_then(t, lex_spec(rest)),
            None => message_then("Unknown token: "@ + w, lex_spec(rest)),
        }),
{
    let s = w + rest;
    assert forall|i: int| 0 <= i < w.len() implies !delimiter(#[trigger] s[i]) by {
        assert(s[i] == w[i]);
    }
    if rest.len() > 0 {
        assert(s[w.len() as int] == rest[0]);
    }
    lemma_word_len_exact(s, w.len() as int);
    assert(s[0] == w[0]);
    assert(!delimiter(w[0]));
    assert(s.take(w.len() as int) =~= w);
    assert(s.skip(w.len() as int) =~= rest);
}

/// A word ends at the first delimiter: lexing a word followed by text that
/// starts with a delimiter (or by nothing) gives what the word gives alone,
/// then what the text gives.
pub proof fn lemma_word_ends_at_delimiter(w: Seq<char>, rest: Seq<char>)
    requires
        is_word(w),
        word_stops(rest),
    ensures
        lex_spec(w + rest) == then(lex_spec(w), lex_spec(rest)),
{
    lemma_word_step(w, rest);
    lemma_word_step(w, Seq::empty());
    assert(w + Seq::<char>::empty() =~= w);
    let o = lex_spec(rest);
    let e = lex_spec(Seq::<char>::empty());
    assert(e.tokens =~= Seq::<SpecToken>::empty());
    assert(e.diagnostics =~= Seq::<Seq<char>>::empty());
    match crate::lexer::word_token(w) {
        Some(t) => {
            assert(seq![t] + o.tokens =~= (seq![t] + e.tokens) + o.tokens);
            assert(o.diagnostics =~= e.diagnostics + o.diagnostics);
        },
        None => {
            assert(o.tokens =~= e.tokens + o.tokens);
            assert(seq!["Unknown token: "@ + w] + o.diagnostics =~= (seq!["Unknown token: "@ + w] + e.diagnostics) + o.diagnostics);
        },
    }
}

/// The reserved words lex to their tokens wherever they stand as whole
/// words.
pub proof fn lemma_keywords(rest: Seq<char>)
    requires
        word_stops(rest),
    ensures
        lex_spec("print"@ + rest) == token_then(SpecToken::Print, lex_spec(rest)),
        lex_spec("add"@ + rest) == token_then(SpecToken::Add, lex_spec(rest)),
        lex_spec("subtract"@ + rest) == token_then(SpecToken::Subtract, lex_spec(rest)),
        lex_spec("multiply"@ + rest) == token_then(SpecToken::Multiply, lex_spec(rest)),
        lex_spec("divide"@ + rest) == token_then(SpecToken::Divide, lex_spec(rest)),
        lex_spec("mod"@ + rest) == token_then(SpecToken::Modulus, lex_spec(rest)),
        lex_spec("let"@ + rest) == token_then(SpecToken::Let, lex_spec(rest)),
        lex_spec("if"@ + rest) == token_then(SpecToken::If, lex_spec(rest)),
        lex_spec("else"@ + rest) == token_then(SpecToken::Else, lex_spec(rest)),
{
    reveal_strlit("print");
    reveal_strlit("add");
    reveal_strlit("subtract");
    reveal_strlit("multiply");
    reveal_strlit("divide");
    reveal_strlit("mod");
    reveal_strlit("let");
    reveal_strlit("if");
    reveal_strlit("else");
    lemma_word_step("print"@, rest);
    lemma_word_step("add"@, rest);
    lemma_word_step("subtract"@, rest);
    lemma_word_step("multiply"@, rest);
    lemma_word_step("divide"@, rest);
    lemma_word_step("mod"@, rest);
    lemma_word_step("let"@, rest);
    lemma_word_step("if"@, rest);
    lemma_word_step("else"@, rest);
}

/// The decimal text of any `i32`, standing as a whole word, lexes to that
/// number.
pub proof fn lemma_number_words(n: i32, rest: Seq<char>)
    requires
        word_stops(rest),
    ensures
        lex_spec(decimal_text(n as int) + rest) == token_then(SpecToken::Number(n), lex_spec(rest)),
{
    let w = decimal_text(n as int);
    lemma_parse_decimal_roundtrip(n);
    let m: nat = if n < 0 { (-(n as int)) as nat } else { n as nat };
    lemma_nat_digits(m);
    let d = crate::numeric::nat_digits(m);
    assert forall|i: int| 0 <= i < w.len() implies !delimiter(#[trigger] w[i]) by {
        if n < 0 {
            if i > 0 {
                assert(w[i] == d[i - 1]);
                assert(is_digit(d[i - 1]));
            }
        } else {
            assert(is_digit(d[i]));
        }
    }
    assert(is_digit(w[0]) || w[0] == '-') by {
        if n >= 0 {
            assert(is_digit(d[0]));
        }
    }
    reveal_strlit("print");
    reveal_strlit("add");
    reveal_strlit("subtract");
    reveal_strlit("multiply");
    reveal_strlit("divide");
    reveal_strlit("mod");
    reveal_strlit("let");
    reveal_strlit("if");
    reveal_strlit("else");
    lemma_word_step(w, rest);
}

/// Whether a word is one of the reserved words.
pub open spec fn reserved(w: Seq<char>) -> bool {
    w == "print"@ || w == "add"@ || w == "subtract"@ || w == "multiply"@ || w == "divide"@ || w == "mod"@
        || w == "let"@ || w == "if"@ || w == "else"@
}

/// A whole word that is not reserved and does not start with a digit or a
/// sign lexes to an identifier when all its characters are alphanumeric or
/// underscores, and otherwise to the message that names it.
pub proof fn lemma_identifier_words(w: Seq<char>, rest: Seq<char>)
    requires
        is_word(w),
        word_stops(rest),
        !reserved(w),
        !('0' <= w[0] <= '9'),
        w[0] != '+',
        w[0] != '-',
    ensures
        (forall|i: int| 0 <= i < w.len() ==> unicode_alphanumeric(#[trigger] w[i]) || w[i] == '_') ==> lex_spec(w + rest)
            == token_then(SpecToken::Identifier(w), lex_spec(rest)),
        (exists|i: int| 0 <= i < w.len() && !unicode_alphanumeric(#[trigger] w[i]) && w[i] != '_') ==> lex_spec(w + rest)
            == message_then("Unknown token: "@ + w, lex_spec(rest)),
{
    lemma_word_step(w, rest);
    assert(!crate::numeric::is_digit(w[0]));
}

/// Whitespace between tokens is skipped.
pub proof fn lemma_whitespace_skipped(c: char, rest: Seq<char>)
    requires
        unicode_whitespace(c),
    ensures
        lex_spec(seq![c] + rest) == lex_spec(rest),
{
    assert((seq![c] + rest).drop_first() =~= rest);
}

/// Each operator character lexes to its one-character token, or, with `=`
/// after it, to its two-character token; `{` and `}` are tokens of their
/// own; a `!` without `=` gives a message and no token.
pub proof fn lemma_operators(rest: Seq<char>)
    ensures
        !(rest.len() > 0 && rest[0] == '=') ==> lex_spec(seq!['='] + rest) == token_then(SpecToken::Assign, lex_spec(rest)),
        !(rest.len() > 0 && rest[0] == '=') ==> lex_spec(seq!['<'] + rest) == token_then(SpecToken::LessThan, lex_spec(rest)),
        !(rest.len() > 0 && rest[0] == '=') ==> lex_spec(seq!['>'] + rest) == token_then(SpecToken::GreaterThan, lex_spec(rest)),
        !(rest.len() > 0 && rest[0] == '=') ==> lex_spec(seq!['!'] + rest) == message_then("Unexpected character: !"@, lex_spec(rest)),
        lex_spec(seq!['=', '='] + rest) == token_then(SpecToken::Equals, lex_spec(rest)),
        lex_spec(seq!['<', '='] + rest) == token_then(SpecToken::LessThanOrEqual, lex_spec(rest)),
        lex_spec(seq!['>', '='] + rest) == token_then(SpecToken::GreaterThanOrEqual, lex_spec(rest)),
        lex_spec(seq!['!', '='] + rest) == token_then(SpecToken::NotEquals, lex_spec(rest)),
        lex_spec(seq!['{'] + rest) == token_then(SpecToken::LeftBrace, lex_spec(rest)),
        lex_spec(seq!['}'] + rest) == token_then(SpecToken::RightBrace, lex_spec(rest)),
{
    let cs = seq!['=', '<', '>', '!', '{', '}'];
    assert forall|i: int| 0 <= i < 6 implies ({
        let s = seq![#[trigger] cs[i]] + rest;
        &&& s[0] == cs[i]
        &&& s.skip(1) =~= rest
        &&& (rest.len() > 0 ==> s[1] == rest[0])
        &&& s.len() > 1 <==> rest.len() > 0
    }) by {}
    let ds = seq!['=', '<', '>', '!'];
    assert forall|i: int| 0 <= i < 4 implies ({
        let s = seq![#[trigger] ds[i], '='] + rest;
        &&& s[0] == ds[i]
        &&& s[1] == '='
        &&& s.skip(2) =~= rest
    }) by {}
    assert(cs[0] == '=' && cs[1] == '<' && cs[2] == '>' && cs[3] == '!' && cs[4] == '{' && cs[5] == '}');
    assert(ds[0] == '=' && ds[1] == '<' && ds[2] == '>' && ds[3] == '!');
}

/// A string is the characters between a double quote and the next one (or
/// the end of the text), taken as they are.
pub proof fn lemma_strings(body: Seq<char>, rest: Seq<char>)
    requires
        forall|i: int| 0 <= i < body.len() ==> #[trigger] body[i] != '"',
    ensures
        lex_spec(seq!['"'] + body + seq!['"'] + rest) == token_then(SpecToken::String(body), lex_spec(rest)),
        lex_spec(seq!['"'] + body) == token_then(SpecToken::String(body), lex_spec(Seq::empty())),
{
    let s = seq!['"'] + body + seq!['"'] + rest;
    let t = s.drop_first();
    assert(t =~= body + seq!['"'] + rest);
    assert forall|i: int| 0 <= i < body.len() implies #[trigger] t[i] != '"' by {
        assert(t[i] == body[i]);
    }
    assert(t[body.len() as int] == '"');
    lemma_quote_len_exact(t, body.len() as int);
    assert(s.subrange(1, 1 + body.len() as int) =~= body);
    assert(s.skip(body.len() as int + 2) =~= rest);
    let u = seq!['"'] + body;
    let v = u.drop_first();
    assert(v =~= body);
    lemma_quote_len_exact(v, body.len() as int);
    assert(u.subrange(1, 1 + body.len() as int) =~= body);
}

/// Lexing empty text gives no tokens and no messages.
pub proof fn lemma_empty_text()
    ensures
        lex_spec(Seq::empty()).tokens.len() == 0,
        lex_spec(Seq::empty()).diagnostics.len() == 0,
{
}

/// A whole word's token does not depend on the delimiter after it: the
/// characters that end a word are exactly the delimiters.
pub proof fn lemma_word_end_set(c: char)
    ensures
        ends_word(c) == delimiter(c),
{
}

} // verus!
