//! The lexer: source text to tokens.
use vstd::prelude::*;
use vstd::string::*;
use crate::numeric::{parse_i32, parse_i32_spec};
use crate::text::{chars_of, push_line, is_alphanumeric, is_whitespace, push_char, unicode_alphanumeric, unicode_whitespace};
use crate::token::{tokens_view, SpecToken, Token};

verus! {

/// The characters skipped between tokens: whitespace (space, tab, newline
/// and carriage return among them).
pub open spec fn is_separator(c: char) -> bool {
    unicode_whitespace(c)
}

/// The characters that end a word: whitespace, a quote, a brace, or the
/// first character of an operator.
pub open spec fn ends_word(c: char) -> bool {
    is_separator(c) || c == '"' || c == '{' || c == '}' || c == '=' || c == '<' || c == '>'
        || c == '!'
}

/// The number of leading characters of `s` that are not a double quote.
pub open spec fn quote_len(s: Seq<char>) -> nat
    decreases s.len(),
{
    if s.len() == 0 || s[0] == '"' {
        0
    } else {
        1 + quote_len(s.drop_first())
    }
}

/// The number of leading characters of `s` that belong to a word.
pub open spec fn word_len(s: Seq<char>) -> nat
    decreases s.len(),
{
    if s.len() == 0 || ends_word(s[0]) {
        0
    } else {
        1 + word_len(s.drop_first())
    }
}

/// The token of a reserved word.
pub open spec fn keyword_token(w: Seq<char>) -> Option<SpecToken> {
    if w == "print"@ {
        Some(SpecToken::Print)
    } else if w == "add"@ {
        Some(SpecToken::Add)
    } else if w == "subtract"@ {
        Some(SpecToken::Subtract)
    } else if w == "multiply"@ {
        Some(SpecToken::Multiply)
    } else if w == "divide"@ {
        Some(SpecToken::Divide)
    } else if w == "mod"@ {
        Some(SpecToken::Modulus)
    } else if w == "let"@ {
        Some(SpecToken::Let)
    } else if w == "if"@ {
        Some(SpecToken::If)
    } else if w == "else"@ {
        Some(SpecToken::Else)
    } else {
        None
    }
}

/// Every character of `w` is alphanumeric or an underscore.
pub open spec fn identifier_chars(w: Seq<char>) -> bool {
    forall|i: int| 0 <= i < w.len() ==> unicode_alphanumeric(#[trigger] w[i]) || w[i] == '_'
}

/// The token a word stands for: a reserved word, else an integer, else an
/// identifier; `None` for a word that is none of these.
pub open spec fn word_token(w: Seq<char>) -> Option<SpecToken> {
    match keyword_token(w) {
        Some(t) => Some(t),
        None => match parse_i32_spec(w) {
            Some(n) => Some(SpecToken::Number(n)),
            None => if identifier_chars(w) {
                Some(SpecToken::Identifier(w))
            } else {
                None
            },
        },
    }
}

/// What lexing produces: the tokens and the diagnostics reported on the
/// way.
pub struct LexOutcome {
    pub tokens: Seq<SpecToken>,
    pub diagnostics: Seq<Seq<char>>,
}

/// A token in front of what the rest of the input gives.
pub open spec fn with_token(t: SpecToken, o: LexOutcome) -> LexOutcome {
    LexOutcome { tokens: seq![t] + o.tokens, ..o }
}

/// A diagnostic in front of what the rest of the input gives.
pub open spec fn with_diagnostic(d: Seq<char>, o: LexOutcome) -> LexOutcome {
    LexOutcome { diagnostics: seq![d] + o.diagnostics, ..o }
}

/// The diagnostic for a `!` that does not start `!=`.
pub open spec fn lone_bang_message() -> Seq<char> {
    "Unexpected character: !"@
}

/// The diagnostic for a word that is no token.
pub open spec fn unknown_word_message(w: Seq<char>) -> Seq<char> {
    "Unknown token: "@ + w
}

/// Lexing a character sequence, one token or separator at a time from the
/// front.
pub open spec fn lex_spec(cs: Seq<char>) -> LexOutcome
    decreases cs.len(),
{
    if cs.len() == 0 {
        LexOutcome { tokens: Seq::empty(), diagnostics: Seq::empty() }
    } else {
        let c = cs[0];
        if is_separator(c) {
            lex_spec(cs.drop_first())
        } else if c == '"' {
            let k: int = quote_len(cs.drop_first()) as int;
            proof {
                lemma_quote_len_bound(cs.drop_first());
            }
            let body = cs.subrange(1, 1 + k);
            if 1 + k < cs.len() {
                with_token(SpecToken::String(body), lex_spec(cs.skip(k + 2)))
            } else {
                with_token(SpecToken::String(body), lex_spec(Seq::empty()))
            }
        } else if c == '=' {
            if cs.len() > 1 && cs[1] == '=' {
                with_token(SpecToken::Equals, lex_spec(cs.skip(2)))
            } else {
                with_token(SpecToken::Assign, lex_spec(cs.skip(1)))
            }
        } else if c == '<' {
            if cs.len() > 1 && cs[1] == '=' {
                with_token(SpecToken::LessThanOrEqual, lex_spec(cs.skip(2)))
            } else {
                with_token(SpecToken::LessThan, lex_spec(cs.skip(1)))
            }
        } else if c == '>' {
            if cs.len() > 1 && cs[1] == '=' {
                with_token(SpecToken::GreaterThanOrEqual, lex_spec(cs.skip(2)))
            } else {
                with_token(SpecToken::GreaterThan, lex_spec(cs.skip(1)))
            }
        } else if c == '!' {
            if cs.len() > 1 && cs[1] == '=' {
                with_token(SpecToken::NotEquals, lex_spec(cs.skip(2)))
            } else {
                with_diagnostic(lone_bang_message(), lex_spec(cs.skip(1)))
            }
        } else if c == '{' {
            with_token(SpecToken::LeftBrace, lex_spec(cs.skip(1)))
        } else if c == '}' {
            with_token(SpecToken::RightBrace, lex_spec(cs.skip(1)))
        } else {
            let n = word_len(cs);
            proof {
                lemma_word_len_bound(cs);
            }
            let w = cs.take(n as int);
            match word_token(w) {
                Some(t) => with_token(t, lex_spec(cs.skip(n as int))),
                None => with_diagnostic(unknown_word_message(w), lex_spec(cs.skip(n as int))),
            }
        }
    }
}

/// A quoted body never runs past the input.
pub proof fn lemma_quote_len_bound(s: Seq<char>)
    ensures
        quote_len(s) <= s.len(),
        quote_len(s) < s.len() ==> s[quote_len(s) as int] == '"',
        forall|i: int| 0 <= i < quote_len(s) ==> s[i] != '"',
    decreases s.len(),
{
    if s.len() > 0 && s[0] != '"' {
        lemma_quote_len_bound(s.drop_first());
        assert forall|i: int| 0 <= i < quote_len(s) implies s[i] != '"' by {
            if i > 0 {
                assert(s[i] == s.drop_first()[i - 1]);
            }
        }
    }
}

/// A word never runs past the input.
pub proof fn lemma_word_len_bound(s: Seq<char>)
    ensures
        word_len(s) <= s.len(),
        word_len(s) < s.len() ==> ends_word(s[word_len(s) as int]),
        forall|i: int| 0 <= i < word_len(s) ==> !ends_word(#[trigger] s[i]),
    decreases s.len(),
{
    if s.len() > 0 && !ends_word(s[0]) {
        lemma_word_len_bound(s.drop_first());
        assert forall|i: int| 0 <= i < word_len(s) implies !ends_word(#[trigger] s[i]) by {
            if i > 0 {
                assert(s[i] == s.drop_first()[i - 1]);
            }
        }
    }
}


/// The tokens and diagnostics already produced, in front of what the rest
/// of the input gives.
pub open spec fn after(ts: Seq<SpecToken>, ds: Seq<Seq<char>>, o: LexOutcome) -> LexOutcome {
    LexOutcome { tokens: ts + o.tokens, diagnostics: ds + o.diagnostics }
}

proof fn lemma_after_token(ts: Seq<SpecToken>, ds: Seq<Seq<char>>, t: SpecToken, o: LexOutcome)
    ensures
        after(ts, ds, with_token(t, o)) == after(ts.push(t), ds, o),
{
    assert(ts + (seq![t] + o.tokens) =~= ts.push(t) + o.tokens);
}

proof fn lemma_after_diagnostic(ts: Seq<SpecToken>, ds: Seq<Seq<char>>, d: Seq<char>, o: LexOutcome)
    ensures
        after(ts, ds, with_diagnostic(d, o)) == after(ts, ds.push(d), o),
{
    assert(ds + (seq![d] + o.diagnostics) =~= ds.push(d) + o.diagnostics);
}

/// Whether `c` ends a word.
fn ends_word_exec(c: char) -> (r: bool)
    ensures
        r == ends_word(c),
{
    is_whitespace(c) || c == '"' || c == '{' || c == '}' || c == '=' || c == '<' || c == '>'
        || c == '!'
}

/// The position of the first double quote at or after `start`, or the end.
fn scan_quote(cs: &Vec<char>, start: usize) -> (end: usize)
    requires
        start <= cs@.len(),
    ensures
        end == start + quote_len(cs@.skip(start as int)),
{
    let mut end = start;
    while end < cs.len() && cs[end] != '"'
        invariant
            start <= end <= cs@.len(),
            quote_len(cs@.skip(start as int)) == (end - start) + quote_len(cs@.skip(end as int)),
        decreases cs@.len() - end,
    {
        assert(cs@.skip(end as int).drop_first() =~= cs@.skip(end + 1));
        end = end + 1;
    }
    if end < cs.len() {
        assert(cs@.skip(end as int)[0] == '"');
    } else {
        assert(cs@.skip(end as int).len() == 0);
    }
    end
}

/// The position where the word starting at `start` ends.
fn scan_word(cs: &Vec<char>, start: usize) -> (end: usize)
    requires
        start <= cs@.len(),
    ensures
        end == start + word_len(cs@.skip(start as int)),
{
    let mut end = start;
    while end < cs.len() && !ends_word_exec(cs[end])
        invariant
            start <= end <= cs@.len(),
            word_len(cs@.skip(start as int)) == (end - start) + word_len(cs@.skip(end as int)),
        decreases cs@.len() - end,
    {
        assert(cs@.skip(end as int).drop_first() =~= cs@.skip(end + 1));
        end = end + 1;
    }
    if end < cs.len() {
        assert(ends_word(cs@.skip(end as int)[0]));
    } else {
        assert(cs@.skip(end as int).len() == 0);
    }
    end
}

/// The string made of the characters `cs[from..to]`.
fn string_of(cs: &Vec<char>, from: usize, to: usize) -> (r: String)
    requires
        from <= to <= cs@.len(),
    ensures
        r@ == cs@.subrange(from as int, to as int),
{
    let mut r = String::new();
    let mut i = from;
    while i < to
        invariant
            from <= i <= to <= cs@.len(),
            r@ == cs@.subrange(from as int, i as int),
        decreases to - i,
    {
        push_char(&mut r, cs[i]);
        assert(cs@.subrange(from as int, i + 1) =~= cs@.subrange(from as int, i as int).push(cs@[i as int]));
        i = i + 1;
    }
    r
}

/// Whether the characters of `w` are those of `k`.
fn is_word(w: &[char], k: &str) -> (r: bool)
    ensures
        r == (w@ == k@),
{
    let n = k.unicode_len();
    if w.len() != n {
        return false;
    }
    let mut i: usize = 0;
    while i < n
        invariant
            i <= n,
            n == k@.len(),
            w@.len() == n,
            forall|j: int| 0 <= j < i ==> w@[j] == k@[j],
        decreases n - i,
    {
        if w[i] != k.get_char(i) {
            return false;
        }
        i = i + 1;
    }
    assert(w@ =~= k@);
    true
}

/// The token of a reserved word, if `w` is one.
fn keyword(w: &[char]) -> (r: Option<Token>)
    ensures
        match r {
            Some(t) => keyword_token(w@) == Some(t@),
            None => keyword_token(w@) is None,
        },
{
    if is_word(w, "print") {
        Some(Token::Print)
    } else if is_word(w, "add") {
        Some(Token::Add)
    } else if is_word(w, "subtract") {
        Some(Token::Subtract)
    } else if is_word(w, "multiply") {
        Some(Token::Multiply)
    } else if is_word(w, "divide") {
        Some(Token::Divide)
    } else if is_word(w, "mod") {
        Some(Token::Modulus)
    } else if is_word(w, "let") {
        Some(Token::Let)
    } else if is_word(w, "if") {
        Some(Token::If)
    } else if is_word(w, "else") {
        Some(Token::Else)
    } else {
        None
    }
}

/// Whether every character of `w` is alphanumeric or an underscore.
fn is_identifier(w: &[char]) -> (r: bool)
    ensures
        r == identifier_chars(w@),
{
    let mut i: usize = 0;
    while i < w.len()
        invariant
            i <= w@.len(),
            forall|j: int| 0 <= j < i ==> unicode_alphanumeric(#[trigger] w@[j]) || w@[j] == '_',
        decreases w@.len() - i,
    {
        if !(is_alphanumeric(w[i]) || w[i] == '_') {
            return false;
        }
        i = i + 1;
    }
    true
}

/// The token that the word `cs[from..to]` stands for, if any.
fn word_to_token(cs: &Vec<char>, from: usize, to: usize) -> (r: Option<Token>)
    requires
        from <= to <= cs@.len(),
    ensures
        match r {
            Some(t) => word_token(cs@.subrange(from as int, to as int)) == Some(t@),
            None => word_token(cs@.subrange(from as int, to as int)) is None,
        },
{
    let w = cs.as_slice();
    let mut word: Vec<char> = Vec::new();
    let mut i = from;
    while i < to
        invariant
            from <= i <= to <= cs@.len(),
            w@ == cs@,
            word@ == cs@.subrange(from as int, i as int),
        decreases to - i,
    {
        word.push(w[i]);
        assert(cs@.subrange(from as int, i + 1) =~= cs@.subrange(from as int, i as int).push(cs@[i as int]));
        i = i + 1;
    }
    let ws = word.as_slice();
    match keyword(ws) {
        Some(t) => return Some(t),
        None => {},
    }
    match parse_i32(ws) {
        Some(n) => return Some(Token::Number(n)),
        None => {},
    }
    if is_identifier(ws) {
        Some(Token::Identifier(string_of(cs, from, to)))
    } else {
        None
    }
}

/// Splits source text into tokens, skipping whitespace and appending to
/// `diagnostics` a message for each lone `!` and each word that is no token.
pub fn lexer_with_diagnostics(code: &str, diagnostics: &mut Vec<String>) -> (r: Vec<Token>)
    ensures
        final(diagnostics).deep_view() == old(diagnostics).deep_view() + lex_spec(code@).diagnostics,
        tokens_view(r@) == lex_spec(code@).tokens,
{
    let cs = chars_of(code);
    let n = cs.len();
    let mut tokens: Vec<Token> = Vec::new();
    let ghost d0 = diagnostics.deep_view();
    let ghost mut ds: Seq<Seq<char>> = Seq::empty();
    let mut i: usize = 0;
    assert(cs@.skip(0) =~= cs@);
    assert(after(Seq::empty(), Seq::empty(), lex_spec(cs@)) =~= lex_spec(cs@));
    while i < n
        invariant
            i <= n,
            n == cs@.len(),
            cs@ == code@,
            diagnostics.deep_view() == d0 + ds,
            d0 == old(diagnostics).deep_view(),
            lex_spec(cs@) == after(tokens_view(tokens@), ds, lex_spec(cs@.skip(i as int))),
        decreases n - i,
    {
        let ghost rest = cs@.skip(i as int);
        let ghost ts0 = tokens_view(tokens@);
        let c = cs[i];
        assert(rest[0] == c);
        if is_whitespace(c) {
            assert(rest.drop_first() =~= cs@.skip(i + 1));
            i = i + 1;
        } else if c == '"' {
            let end = scan_quote(&cs, i + 1);
            assert(rest.drop_first() =~= cs@.skip(i + 1));
            proof {
                lemma_quote_len_bound(rest.drop_first());
            }
            let body = string_of(&cs, i + 1, end);
            assert(body@ =~= rest.subrange(1, 1 + quote_len(rest.drop_first()) as int));
            let tok = Token::String(body);
            tokens.push(tok);
            proof {
                assert(tokens_view(tokens@) =~= ts0.push(tok@));
                let o = if end < n {
                    assert(rest.skip(end - i + 1) =~= cs@.skip(end + 1));
                    lex_spec(cs@.skip(end + 1))
                } else {
                    assert(cs@.skip(n as int) =~= Seq::<char>::empty());
                    lex_spec(cs@.skip(n as int))
                };
                lemma_after_token(ts0, ds, tok@, o);
            }
            if end < n {
                i = end + 1;
            } else {
                i = n;
            }
        } else if c == '=' || c == '<' || c == '>' {
            let double = i + 1 < n && cs[i + 1] == '=';
            let tok = if c == '=' {
                if double { Token::Equals } else { Token::Assign }
            } else if c == '<' {
                if double { Token::LessThanOrEqual } else { Token::LessThan }
            } else {
                if double { Token::GreaterThanOrEqual } else { Token::GreaterThan }
            };
            let step: usize = if double { 2 } else { 1 };
            tokens.push(tok);
            proof {
                assert(tokens_view(tokens@) =~= ts0.push(tok@));
                assert(rest.skip(step as int) =~= cs@.skip(i + step));
                lemma_after_token(ts0, ds, tok@, lex_spec(cs@.skip(i + step)));
            }
            i = i + step;
        } else if c == '!' {
            if i + 1 < n && cs[i + 1] == '=' {
                tokens.push(Token::NotEquals);
                proof {
                    assert(tokens_view(tokens@) =~= ts0.push(SpecToken::NotEquals));
                    assert(rest.skip(2) =~= cs@.skip(i + 2));
                    lemma_after_token(ts0, ds, SpecToken::NotEquals, lex_spec(cs@.skip(i + 2)));
                }
                i = i + 2;
            } else {
                let msg = String::from_str("Unexpected character: !");
                push_line(diagnostics, msg);
                proof {
                    assert(diagnostics.deep_view() =~= d0 + ds.push(lone_bang_message()));
                    assert(rest.skip(1) =~= cs@.skip(i + 1));
                    lemma_after_diagnostic(ts0, ds, lone_bang_message(), lex_spec(cs@.skip(i + 1)));
                    ds = ds.push(lone_bang_message());
                }
                i = i + 1;
            }
        } else if c == '{' || c == '}' {
            let tok = if c == '{' { Token::LeftBrace } else { Token::RightBrace };
            tokens.push(tok);
            proof {
                assert(tokens_view(tokens@) =~= ts0.push(tok@));
                assert(rest.skip(1) =~= cs@.skip(i + 1));
                lemma_after_token(ts0, ds, tok@, lex_spec(cs@.skip(i + 1)));
            }
            i = i + 1;
        } else {
            let end = scan_word(&cs, i);
            proof {
                lemma_word_len_bound(rest);
                assert(rest.take(end - i) =~= cs@.subrange(i as int, end as int));
                assert(rest.skip(end - i) =~= cs@.skip(end as int));
            }
            match word_to_token(&cs, i, end) {
                Some(tok) => {
                    tokens.push(tok);
                    proof {
                        assert(tokens_view(tokens@) =~= ts0.push(tok@));
                        lemma_after_token(ts0, ds, tok@, lex_spec(cs@.skip(end as int)));
                    }
                },
                None => {
                    let mut msg = String::from_str("Unknown token: ");
                    let w = string_of(&cs, i, end);
                    msg.append(w.as_str());
                    push_line(diagnostics, msg);
                    proof {
                        let m = unknown_word_message(cs@.subrange(i as int, end as int));
                        assert(msg@ =~= m);
                        assert(diagnostics.deep_view() =~= d0 + ds.push(m));
                        lemma_after_diagnostic(ts0, ds, m, lex_spec(cs@.skip(end as int)));
                        ds = ds.push(m);
                    }
                },
            }
            i = end;
        }
    }
    assert(cs@.skip(n as int) =~= Seq::<char>::empty());
    assert(tokens_view(tokens@) + Seq::<SpecToken>::empty() =~= tokens_view(tokens@));
    assert(ds + Seq::<Seq<char>>::empty() =~= ds);
    tokens
}

/// Splits source text into tokens, skipping whitespace and leaving out
/// what is no token.
pub fn lexer(code: &str) -> (r: Vec<Token>)
    ensures
        tokens_view(r@) == lex_spec(code@).tokens,
{
    let mut diagnostics: Vec<String> = Vec::new();
    lexer_with_diagnostics(code, &mut diagnostics)
}

} // verus!
