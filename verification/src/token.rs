//! Tokens, the unit the lexer produces and the parser consumes.
use vstd::prelude::*;
use vstd::string::*;
use crate::numeric::{decimal_string, decimal_text};
use crate::text::{escape_debug, escape_debug_text, push_char};

verus! {

/// A lexical token.
#[derive(Debug, Clone, PartialEq, Eq)]
pub enum Token {
    Print,
    Add,
    Subtract,
    Multiply,
    Divide,
    Modulus,
    Let,
    /// The `=` operator.
    Assign,
    Identifier(String),
    Number(i32),
    String(String),
    /// `==`
    Equals,
    /// `!=`
    NotEquals,
    /// `<`
    LessThan,
    /// `>`
    GreaterThan,
    /// `<=`
    LessThanOrEqual,
    /// `>=`
    GreaterThanOrEqual,
    If,
    Else,
    /// `{`
    LeftBrace,
    /// `}`
    RightBrace,
}

/// The mathematical value of a [`Token`]: texts are character sequences.
pub enum SpecToken {
    Print,
    Add,
    Subtract,
    Multiply,
    Divide,
    Modulus,
    Let,
    Assign,
    Identifier(Seq<char>),
    Number(i32),
    String(Seq<char>),
    Equals,
    NotEquals,
    LessThan,
    GreaterThan,
    LessThanOrEqual,
    GreaterThanOrEqual,
    If,
    Else,
    LeftBrace,
    RightBrace,
}

impl View for Token {
    type V = SpecToken;

    open spec fn view(&self) -> SpecToken {
        match self {
            Token::Print => SpecToken::Print,
            Token::Add => SpecToken::Add,
            Token::Subtract => SpecToken::Subtract,
            Token::Multiply => SpecToken::Multiply,
            Token::Divide => SpecToken::Divide,
            Token::Modulus => SpecToken::Modulus,
            Token::Let => SpecToken::Let,
            Token::Assign => SpecToken::Assign,
            Token::Identifier(s) => SpecToken::Identifier(s@),
            Token::Number(n) => SpecToken::Number(*n),
            Token::String(s) => SpecToken::String(s@),
            Token::Equals => SpecToken::Equals,
            Token::NotEquals => SpecToken::NotEquals,
            Token::LessThan => SpecToken::LessThan,
            Token::GreaterThan => SpecToken::GreaterThan,
            Token::LessThanOrEqual => SpecToken::LessThanOrEqual,
            Token::GreaterThanOrEqual => SpecToken::GreaterThanOrEqual,
            Token::If => SpecToken::If,
            Token::Else => SpecToken::Else,
            Token::LeftBrace => SpecToken::LeftBrace,
            Token::RightBrace => SpecToken::RightBrace,
        }
    }
}

/// The tokens of a vector, each by its value.
pub open spec fn tokens_view(v: Seq<Token>) -> Seq<SpecToken> {
    v.map_values(|t: Token| t@)
}

/// How one character of a string appears inside the string's `Debug` text:
/// as `char::escape_debug` writes it, except that a single quote stays as it
/// is.
pub open spec fn debug_char_in_str(c: char) -> Seq<char> {
    if c == '\'' {
        seq!['\'']
    } else {
        escape_debug_text(c)
    }
}

/// The escaped characters of a string's `Debug` text, without the quotes.
pub open spec fn debug_str_body(s: Seq<char>) -> Seq<char>
    decreases s.len(),
{
    if s.len() == 0 {
        Seq::empty()
    } else {
        debug_str_body(s.drop_last()) + debug_char_in_str(s.last())
    }
}

/// The `Debug` text of a string: its escaped characters between double
/// quotes.
pub open spec fn debug_str(s: Seq<char>) -> Seq<char> {
    seq!['"'] + debug_str_body(s) + seq!['"']
}

/// The `Debug` text of a token: the variant's name, then its field in
/// parentheses where it has one.
pub open spec fn token_debug_text(t: SpecToken) -> Seq<char> {
    match t {
        SpecToken::Print => "Print"@,
        SpecToken::Add => "Add"@,
        SpecToken::Subtract => "Subtract"@,
        SpecToken::Multiply => "Multiply"@,
        SpecToken::Divide => "Divide"@,
        SpecToken::Modulus => "Modulus"@,
        SpecToken::Let => "Let"@,
        SpecToken::Assign => "Assign"@,
        SpecToken::Identifier(s) => "Identifier("@ + debug_str(s) + ")"@,
        SpecToken::Number(n) => "Number("@ + decimal_text(n as int) + ")"@,
        SpecToken::String(s) => "String("@ + debug_str(s) + ")"@,
        SpecToken::Equals => "Equals"@,
        SpecToken::NotEquals => "NotEquals"@,
        SpecToken::LessThan => "LessThan"@,
        SpecToken::GreaterThan => "GreaterThan"@,
        SpecToken::LessThanOrEqual => "LessThanOrEqual"@,
        SpecToken::GreaterThanOrEqual => "GreaterThanOrEqual"@,
        SpecToken::If => "If"@,
        SpecToken::Else => "Else"@,
        SpecToken::LeftBrace => "LeftBrace"@,
        SpecToken::RightBrace => "RightBrace"@,
    }
}

/// Appends the `Debug` text of the string `s` to `out`.
fn push_debug_str(out: &mut String, s: &String)
    ensures
        final(out)@ == old(out)@ + debug_str(s@),
{
    let chars = crate::text::chars_of(s.as_str());
    push_char(out, '"');
    let ghost start = out@;
    let mut i: usize = 0;
    while i < chars.len()
        invariant
            i <= chars@.len(),
            chars@ == s@,
            out@ == start + debug_str_body(chars@.take(i as int)),
        decreases chars@.len() - i,
    {
        let c = chars[i];
        if c == '\'' {
            push_char(out, '\'');
        } else {
            let e = escape_debug(c);
            out.append(e.as_str());
        }
        assert(chars@.take(i + 1).drop_last() =~= chars@.take(i as int));
        i = i + 1;
    }
    assert(chars@.take(i as int) =~= s@);
    push_char(out, '"');
    assert(out@ =~= old(out)@ + debug_str(s@));
}

/// The `Debug` text of a token, as `{:?}` writes it.
pub fn token_debug(t: &Token) -> (r: String)
    ensures
        r@ == token_debug_text(t@),
{
    match t {
        Token::Print => String::from_str("Print"),
        Token::Add => String::from_str("Add"),
        Token::Subtract => String::from_str("Subtract"),
        Token::Multiply => String::from_str("Multiply"),
        Token::Divide => String::from_str("Divide"),
        Token::Modulus => String::from_str("Modulus"),
        Token::Let => String::from_str("Let"),
        Token::Assign => String::from_str("Assign"),
        Token::Identifier(s) => {
            let mut r = String::from_str("Identifier(");
            push_debug_str(&mut r, s);
            r.append(")");
            r
        },
        Token::Number(n) => {
            let mut r = String::from_str("Number(");
            let d = decimal_string(*n);
            r.append(d.as_str());
            r.append(")");
            r
        },
        Token::String(s) => {
            let mut r = String::from_str("String(");
            push_debug_str(&mut r, s);
            r.append(")");
            r
        },
        Token::Equals => String::from_str("Equals"),
        Token::NotEquals => String::from_str("NotEquals"),
        Token::LessThan => String::from_str("LessThan"),
        Token::GreaterThan => String::from_str("GreaterThan"),
        Token::LessThanOrEqual => String::from_str("LessThanOrEqual"),
        Token::GreaterThanOrEqual => String::from_str("GreaterThanOrEqual"),
        Token::If => String::from_str("If"),
        Token::Else => String::from_str("Else"),
        Token::LeftBrace => String::from_str("LeftBrace"),
        Token::RightBrace => String::from_str("RightBrace"),
    }
}

} // verus!
