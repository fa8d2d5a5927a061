//! Characters and strings: the calls into `std` whose behaviour the rest of
//! the library relies on, each with the contract it is trusted to meet.
use vstd::prelude::*;

verus! {

/// Whether `char::is_whitespace` holds of `c`: the Unicode `White_Space`
/// property, which these code points have: U+0009 to U+000D, U+0020,
/// U+0085, U+00A0, U+1680, U+2000 to U+200A, U+2028, U+2029, U+202F,
/// U+205F and U+3000.
pub open spec fn unicode_whitespace(c: char) -> bool {
    let u = c as u32;
    ||| 0x09 <= u <= 0x0d
    ||| u == 0x20
    ||| u == 0x85
    ||| u == 0xa0
    ||| u == 0x1680
    ||| 0x2000 <= u <= 0x200a
    ||| u == 0x2028
    ||| u == 0x2029
    ||| u == 0x202f
    ||| u == 0x205f
    ||| u == 0x3000
}

/// Whether `char::is_alphanumeric` holds of `c`: the Unicode `Alphabetic` or
/// `Numeric` property of the character.
pub uninterp spec fn unicode_alphanumeric(c: char) -> bool;

/// The text that `char::escape_debug` yields for `c`.
pub uninterp spec fn escape_debug_text(c: char) -> Seq<char>;

/// Calls `char::is_whitespace`, which holds exactly of the characters with
/// the Unicode `White_Space` property.
#[verifier::external_body]
pub(crate) fn is_whitespace(c: char) -> (r: bool)
    ensures
        r == unicode_whitespace(c),
{
    c.is_whitespace()
}

/// Calls `char::is_alphanumeric`; its result is the Unicode `Alphabetic` or
/// `Numeric` property, which is named and not spelled out here.
#[verifier::external_body]
pub(crate) fn is_alphanumeric(c: char) -> (r: bool)
    ensures
        r == unicode_alphanumeric(c),
{
    c.is_alphanumeric()
}

/// Calls `char::escape_debug` and collects the characters it yields.
#[verifier::external_body]
pub(crate) fn escape_debug(c: char) -> (r: String)
    ensures
        r@ == escape_debug_text(c),
{
    c.escape_debug().to_string()
}

/// Calls `String::push`, which appends one character at the end.
#[verifier::external_body]
pub(crate) fn push_char(s: &mut String, c: char)
    ensures
        final(s)@ == old(s)@.push(c),
{
    s.push(c)
}

/// Appends a line of text to a list of lines.
pub fn push_line(lines: &mut Vec<String>, line: String)
    ensures
        final(lines).deep_view() == old(lines).deep_view().push(line@),
{
    let ghost before = lines@;
    lines.push(line);
    assert(lines.deep_view() =~= old(lines).deep_view().push(line@)) by {
        assert(lines@ == before.push(line));
    }
}

/// The characters of a string slice, in order.
pub fn chars_of(s: &str) -> (r: Vec<char>)
    ensures
        r@ == s@,
{
    let mut r: Vec<char> = Vec::new();
    for c in it: s.chars()
        invariant
            r@ == it.seq().take(it.index() as int),
            it.seq() == s@,
    {
        r.push(c);
    }
    r
}

} // verus!
