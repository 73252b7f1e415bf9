use vstd::prelude::*;
use crate::lexer::{push_char, SpecToken, TokenType};

verus! {

/// The character of a decimal digit.
pub open spec fn digit_char(d: nat) -> char {
    ((d + 48) as u8) as char
}

/// The decimal notation of a natural number.
pub open spec fn decimal(n: nat) -> Seq<char>
    decreases n,
{
    if n < 10 {
        seq![digit_char(n)]
    } else {
        decimal(n / 10) + seq![digit_char(n % 10)]
    }
}

/// The decimal notation of an integer, with a minus sign when negative.
pub open spec fn signed_decimal(v: int) -> Seq<char> {
    if v < 0 {
        "-"@ + decimal((-v) as nat)
    } else {
        decimal(v as nat)
    }
}

/// How a character is written inside a quoted string.
pub open spec fn escape_in_string(c: char) -> Seq<char> {
    if c == '"' {
        "\\\""@
    } else if c == '\\' {
        "\\\\"@
    } else if c == '\n' {
        "\\n"@
    } else if c == '\t' {
        "\\t"@
    } else if c == '\r' {
        "\\r"@
    } else if c == '\0' {
        "\\0"@
    } else if c < ' ' || c == '\u{7f}' {
        "\\u{"@ + hex((c as u32) as nat) + "}"@
    } else {
        seq![c]
    }
}

/// The character of a hexadecimal digit, in lower case.
pub open spec fn hex_digit_char(d: nat) -> char {
    if d < 10 {
        digit_char(d)
    } else {
        ((d + 87) as u8) as char
    }
}

/// The hexadecimal notation of a natural number, in lower case.
pub open spec fn hex(n: nat) -> Seq<char>
    decreases n,
{
    if n < 16 {
        seq![hex_digit_char(n)]
    } else {
        hex(n / 16) + seq![hex_digit_char(n % 16)]
    }
}

/// How a character is written inside single quotes.
pub open spec fn escape_in_char(c: char) -> Seq<char> {
    if c == '\'' {
        "\\'"@
    } else if c == '"' {
        seq![c]
    } else {
        escape_in_string(c)
    }
}

pub open spec fn escaped_string(s: Seq<char>) -> Seq<char>
    decreases s.len(),
{
    if s.len() == 0 {
        Seq::empty()
    } else {
        escaped_string(s.drop_last()) + escape_in_string(s.last())
    }
}

/// A string between double quotes, with quotes, backslashes and control
/// characters escaped.
pub open spec fn quoted_string(s: Seq<char>) -> Seq<char> {
    "\""@ + escaped_string(s) + "\""@
}

/// A character between single quotes, escaped.
pub open spec fn quoted_char(c: char) -> Seq<char> {
    "'"@ + escape_in_char(c) + "'"@
}

/// How diagnostics write a token: its variant's name, with its payload in
/// brackets.
pub open spec fn token_text(t: SpecToken) -> Seq<char> {
    match t {
        SpecToken::Int => "Int"@,
        SpecToken::Char => "Char"@,
        SpecToken::OpenParentheses => "OpenParentheses"@,
        SpecToken::ClosedParentheses => "ClosedParentheses"@,
        SpecToken::Semicolon => "Semicolon"@,
        SpecToken::Comma => "Comma"@,
        SpecToken::Colon => "Colon"@,
        SpecToken::Return => "Return"@,
        SpecToken::If => "If"@,
        SpecToken::Else => "Else"@,
        SpecToken::While => "While"@,
        SpecToken::Do => "Do"@,
        SpecToken::For => "For"@,
        SpecToken::Switch => "Switch"@,
        SpecToken::Case => "Case"@,
        SpecToken::DefaultCase => "DefaultCase"@,
        SpecToken::Break => "Break"@,
        SpecToken::Continue => "Continue"@,
        SpecToken::OpenBracket => "OpenBracket"@,
        SpecToken::ClosedBracket => "ClosedBracket"@,
        SpecToken::Include => "Include"@,
        SpecToken::Define => "Define"@,
        SpecToken::Operator(s) => "Operator("@ + quoted_string(s) + ")"@,
        SpecToken::Identifier(s) => "Identifier("@ + quoted_string(s) + ")"@,
        SpecToken::IntegerLiteral(v) => "IntegerLiteral("@ + signed_decimal(v as int) + ")"@,
        SpecToken::StringLiteral(s) => "StringLiteral("@ + quoted_string(s) + ")"@,
        SpecToken::CharLiteral(c) => "CharLiteral("@ + quoted_char(c) + ")"@,
    }
}

/// The decimal notation of `n`.
pub(crate) fn decimal_text(n: usize) -> (r: String)
    ensures
        r@ == decimal(n as nat),
    decreases n,
{
    let d: u8 = (n % 10) as u8;
    let c: char = (d + 48u8) as char;
    if n < 10 {
        let mut s = String::new();
        push_char(&mut s, c);
        s
    } else {
        let mut s = decimal_text(n / 10);
        push_char(&mut s, c);
        s
    }
}

/// The decimal notation of `v`, with a minus sign when negative.
pub(crate) fn signed_decimal_text(v: i32) -> (r: String)
    ensures
        r@ == signed_decimal(v as int),
{
    if v < 0 {
        let magnitude: u32 = if v == i32::MIN {
            2147483648u32
        } else {
            (-v) as u32
        };
        let mut s = String::from_str("-");
        s.append(decimal_text(magnitude as usize).as_str());
        s
    } else {
        decimal_text(v as usize)
    }
}

fn append_escaped(out: &mut String, c: char, in_string: bool)
    ensures
        final(out)@ == old(out)@ + (if in_string {
            escape_in_string(c)
        } else {
            escape_in_char(c)
        }),
{
    if c == '"' && in_string {
        out.append("\\\"");
    } else if c == '\'' && !in_string {
        out.append("\\'");
    } else if c == '\\' {
        out.append("\\\\");
    } else if c == '\n' {
        out.append("\\n");
    } else if c == '\t' {
        out.append("\\t");
    } else if c == '\r' {
        out.append("\\r");
    } else if c == '\0' {
        out.append("\\0");
    } else if c < ' ' || c == '\u{7f}' {
        out.append("\\u{");
        out.append(hex_text(c as u32).as_str());
        out.append("}");
    } else {
        push_char(out, c);
    }
}

/// The hexadecimal notation of `n`, in lower case.
fn hex_text(n: u32) -> (r: String)
    ensures
        r@ == hex(n as nat),
    decreases n,
{
    let d: u8 = (n % 16) as u8;
    let c: char = if d < 10 {
        (d + 48u8) as char
    } else {
        (d + 87u8) as char
    };
    if n < 16 {
        let mut s = String::new();
        push_char(&mut s, c);
        s
    } else {
        let mut s = hex_text(n / 16);
        push_char(&mut s, c);
        s
    }
}

/// `s` between double quotes, escaped.
pub(crate) fn quoted_string_text(s: &String) -> (r: String)
    ensures
        r@ == quoted_string(s@),
{
    let ghost v = s@;
    let mut chars: Vec<char> = Vec::new();
    proof {
        broadcast use vstd::string::axiom_spec_iter;
    }
    for c in iter: s.as_str().chars()
        invariant
            iter.seq() == v,
            chars@ == iter.seq().take(iter.index() as int),
    {
        chars.push(c);
        assert(iter.seq().take(iter.index() + 1) =~= iter.seq().take(iter.index() as int).push(c));
    }
    assert(v.take(v.len() as int) =~= v);
    let mut out = String::from_str("\"");
    let mut i: usize = 0;
    assert(v.subrange(0, 0) =~= Seq::<char>::empty());
    while i < chars.len()
        invariant
            i <= chars@.len(),
            chars@ == v,
            out@ == "\""@ + escaped_string(v.subrange(0, i as int)),
        decreases chars@.len() - i,
    {
        append_escaped(&mut out, chars[i], true);
        assert(v.subrange(0, i + 1).drop_last() =~= v.subrange(0, i as int));
        assert(out@ =~= "\""@ + escaped_string(v.subrange(0, i + 1)));
        i = i + 1;
    }
    assert(v.subrange(0, v.len() as int) =~= v);
    out.append("\"");
    out
}

/// `c` between single quotes, escaped.
pub(crate) fn quoted_char_text(c: char) -> (r: String)
    ensures
        r@ == quoted_char(c),
{
    let mut out = String::from_str("'");
    append_escaped(&mut out, c, false);
    out.append("'");
    out
}

/// How diagnostics write a token.
pub(crate) fn token_text_of(t: &TokenType) -> (r: String)
    ensures
        r@ == token_text(t@),
{
    match t {
        TokenType::Int => String::from_str("Int"),
        TokenType::Char => String::from_str("Char"),
        TokenType::OpenParentheses => String::from_str("OpenParentheses"),
        TokenType::ClosedParentheses => String::from_str("ClosedParentheses"),
        TokenType::Semicolon => String::from_str("Semicolon"),
        TokenType::Comma => String::from_str("Comma"),
        TokenType::Colon => String::from_str("Colon"),
        TokenType::Return => String::from_str("Return"),
        TokenType::If => String::from_str("If"),
        TokenType::Else => String::from_str("Else"),
        TokenType::While => String::from_str("While"),
        TokenType::Do => String::from_str("Do"),
        TokenType::For => String::from_str("For"),
        TokenType::Switch => String::from_str("Switch"),
        TokenType::Case => String::from_str("Case"),
        TokenType::DefaultCase => String::from_str("DefaultCase"),
        TokenType::Break => String::from_str("Break"),
        TokenType::Continue => String::from_str("Continue"),
        TokenType::OpenBracket => String::from_str("OpenBracket"),
        TokenType::ClosedBracket => String::from_str("ClosedBracket"),
        TokenType::Include => String::from_str("Include"),
        TokenType::Define => String::from_str("Define"),
        TokenType::Operator(s) => {
            let mut out = String::from_str("Operator(");
            out.append(quoted_string_text(s).as_str());
            out.append(")");
            out
        },
        TokenType::Identifier(s) => {
            let mut out = String::from_str("Identifier(");
            out.append(quoted_string_text(s).as_str());
            out.append(")");
            out
        },
        TokenType::IntegerLiteral(v) => {
            let mut out = String::from_str("IntegerLiteral(");
            out.append(signed_decimal_text(*v).as_str());
            out.append(")");
            out
        },
        TokenType::StringLiteral(s) => {
            let mut out = String::from_str("StringLiteral(");
            out.append(quoted_string_text(s).as_str());
            out.append(")");
            out
        },
        TokenType::CharLiteral(c) => {
            let mut out = String::from_str("CharLiteral(");
            out.append(quoted_char_text(*c).as_str());
            out.append(")");
            out
        },
    }
}

} // verus!
