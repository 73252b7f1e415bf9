use vstd::prelude::*;

verus! {

/// The tokens of the language.
#[derive(Debug, PartialEq, Clone)]
pub enum TokenType {
    Int,
    Char,
    OpenParentheses,
    ClosedParentheses,
    Semicolon,
    Comma,
    Colon,
    Return,
    If,
    Else,
    While,
    Do,
    For,
    Switch,
    Case,
    DefaultCase,
    Break,
    Continue,
    OpenBracket,
    ClosedBracket,
    Include,
    Define,
    Operator(String),
    Identifier(String),
    IntegerLiteral(i32),
    StringLiteral(String),
    CharLiteral(char),
}

/// Mathematical model of a token: its strings become character sequences.
pub enum SpecToken {
    Int,
    Char,
    OpenParentheses,
    ClosedParentheses,
    Semicolon,
    Comma,
    Colon,
    Return,
    If,
    Else,
    While,
    Do,
    For,
    Switch,
    Case,
    DefaultCase,
    Break,
    Continue,
    OpenBracket,
    ClosedBracket,
    Include,
    Define,
    Operator(Seq<char>),
    Identifier(Seq<char>),
    IntegerLiteral(i32),
    StringLiteral(Seq<char>),
    CharLiteral(char),
}

impl View for TokenType {
    type V = SpecToken;

    open spec fn view(&self) -> SpecToken {
        match self {
            TokenType::Int => SpecToken::Int,
            TokenType::Char => SpecToken::Char,
            TokenType::OpenParentheses => SpecToken::OpenParentheses,
            TokenType::ClosedParentheses => SpecToken::ClosedParentheses,
            TokenType::Semicolon => SpecToken::Semicolon,
            TokenType::Comma => SpecToken::Comma,
            TokenType::Colon => SpecToken::Colon,
            TokenType::Return => SpecToken::Return,
            TokenType::If => SpecToken::If,
            TokenType::Else => SpecToken::Else,
            TokenType::While => SpecToken::While,
            TokenType::Do => SpecToken::Do,
            TokenType::For => SpecToken::For,
            TokenType::Switch => SpecToken::Switch,
            TokenType::Case => SpecToken::Case,
            TokenType::DefaultCase => SpecToken::DefaultCase,
            TokenType::Break => SpecToken::Break,
            TokenType::Continue => SpecToken::Continue,
            TokenType::OpenBracket => SpecToken::OpenBracket,
            TokenType::ClosedBracket => SpecToken::ClosedBracket,
            TokenType::Include => SpecToken::Include,
            TokenType::Define => SpecToken::Define,
            TokenType::Operator(s) => SpecToken::Operator(s@),
            TokenType::Identifier(s) => SpecToken::Identifier(s@),
            TokenType::IntegerLiteral(v) => SpecToken::IntegerLiteral(*v),
            TokenType::StringLiteral(s) => SpecToken::StringLiteral(s@),
            TokenType::CharLiteral(c) => SpecToken::CharLiteral(*c),
        }
    }
}

/// The ways in which the source text can be rejected by the lexer.
#[derive(Clone, Copy, Debug, PartialEq, Eq, Structural)]
pub enum LexError {
    UnexpectedCharacter(char),
    ExpectedEqualsAfterBang,
    ExpectedSecondAmpersand,
    UnterminatedStringLiteral,
    UnterminatedCharLiteral,
    ExpectedClosingQuote,
    UnterminatedBlockComment,
    UnsupportedDirective,
}

// ---------------------------------------------------------------------------
// Character classes. The Unicode classes come from `char`'s own methods.

/// What `char::is_whitespace` returns: whether the character has the Unicode
/// `White_Space` property, which these 25 code points have.
pub open spec fn spec_is_whitespace(c: char) -> bool {
    ||| '\u{9}' <= c && c <= '\u{d}'
    ||| c == ' '
    ||| c == '\u{85}'
    ||| c == '\u{a0}'
    ||| c == '\u{1680}'
    ||| '\u{2000}' <= c && c <= '\u{200a}'
    ||| c == '\u{2028}'
    ||| c == '\u{2029}'
    ||| c == '\u{202f}'
    ||| c == '\u{205f}'
    ||| c == '\u{3000}'
}

pub open spec fn is_ascii_letter(c: char) -> bool {
    ('a' <= c && c <= 'z') || ('A' <= c && c <= 'Z')
}

/// What `char::is_alphabetic` returns for a character beyond ASCII (Unicode `Alphabetic`).
pub uninterp spec fn unicode_alphabetic(c: char) -> bool;

/// What `char::is_alphanumeric` returns for a character beyond ASCII (Unicode
/// `Alphabetic` or `Numeric`).
pub uninterp spec fn unicode_alphanumeric(c: char) -> bool;

/// What `char::is_alphabetic` returns: within ASCII exactly the letters.
pub open spec fn spec_is_alphabetic(c: char) -> bool {
    if c <= '\u{7f}' {
        is_ascii_letter(c)
    } else {
        unicode_alphabetic(c)
    }
}

/// What `char::is_alphanumeric` returns: within ASCII exactly the letters and digits.
pub open spec fn spec_is_alphanumeric(c: char) -> bool {
    if c <= '\u{7f}' {
        is_ascii_letter(c) || ('0' <= c && c <= '9')
    } else {
        unicode_alphanumeric(c)
    }
}

/// Calls `char::is_whitespace`, which is true exactly of the `White_Space` code points.
#[verifier::external_body]
fn is_whitespace(c: char) -> (r: bool)
    ensures
        r == spec_is_whitespace(c),
{
    c.is_whitespace()
}

/// Calls `char::is_alphanumeric`: within ASCII true exactly of letters and
/// digits; beyond ASCII its result is named `unicode_alphanumeric`.
#[verifier::external_body]
fn is_alphanumeric(c: char) -> (r: bool)
    ensures
        c <= '\u{7f}' ==> r == (is_ascii_letter(c) || ('0' <= c && c <= '9')),
        c > '\u{7f}' ==> r == unicode_alphanumeric(c),
{
    c.is_alphanumeric()
}

/// Calls `char::is_alphabetic`: within ASCII true exactly of letters; beyond
/// ASCII its result is named `unicode_alphabetic`.
#[verifier::external_body]
fn is_alphabetic(c: char) -> (r: bool)
    ensures
        c <= '\u{7f}' ==> r == is_ascii_letter(c),
        c > '\u{7f}' ==> r == unicode_alphabetic(c),
{
    c.is_alphabetic()
}

/// Calls `String::push`, which appends one character to the string.
#[verifier::external_body]
pub(crate) fn push_char(s: &mut String, c: char)
    ensures
        final(s)@ == old(s)@.push(c),
{
    s.push(c)
}

pub open spec fn is_digit(c: char) -> bool {
    '0' <= c && c <= '9'
}

pub open spec fn is_ident_start(c: char) -> bool {
    ('a' <= c && c <= 'z') || ('A' <= c && c <= 'Z') || c == '_'
}

pub open spec fn is_ident_char(c: char) -> bool {
    spec_is_alphanumeric(c) || c == '_'
}

// ---------------------------------------------------------------------------
// The token grammar, over the input characters `s` and a position `p`.

/// First position at or after `p` that does not hold whitespace.
pub open spec fn skip_ws(s: Seq<char>, p: int) -> int
    decreases s.len() - p,
{
    if 0 <= p < s.len() && spec_is_whitespace(s[p]) {
        skip_ws(s, p + 1)
    } else {
        p
    }
}

/// End of the run of identifier characters that starts at `p`.
pub open spec fn ident_end(s: Seq<char>, p: int) -> int
    decreases s.len() - p,
{
    if 0 <= p < s.len() && is_ident_char(s[p]) {
        ident_end(s, p + 1)
    } else {
        p
    }
}

/// End of the run of decimal digits that starts at `p`.
pub open spec fn digits_end(s: Seq<char>, p: int) -> int
    decreases s.len() - p,
{
    if 0 <= p < s.len() && is_digit(s[p]) {
        digits_end(s, p + 1)
    } else {
        p
    }
}

/// End of the run of alphabetic characters that starts at `p`.
pub open spec fn alpha_end(s: Seq<char>, p: int) -> int
    decreases s.len() - p,
{
    if 0 <= p < s.len() && spec_is_alphabetic(s[p]) {
        alpha_end(s, p + 1)
    } else {
        p
    }
}

/// Position just after the end of a line comment whose text starts at `p`:
/// after the first newline, or the end of the input.
pub open spec fn line_comment_end(s: Seq<char>, p: int) -> int
    decreases s.len() - p,
{
    if p < 0 || p >= s.len() {
        p
    } else if s[p] == '\n' {
        p + 1
    } else {
        line_comment_end(s, p + 1)
    }
}

/// Position just after the first `*/` at or after `p`, if there is one.
pub open spec fn block_comment_end(s: Seq<char>, p: int) -> Option<int>
    decreases s.len() - p,
{
    if p < 0 || p >= s.len() {
        None
    } else if s[p] == '*' && p + 1 < s.len() && s[p + 1] == '/' {
        Some(p + 2)
    } else {
        block_comment_end(s, p + 1)
    }
}

/// The character that an escape sequence `\c` stands for.
pub open spec fn escape_char(c: char) -> char {
    if c == 'n' {
        '\n'
    } else if c == 't' {
        '\t'
    } else {
        c
    }
}

/// The rest of a string literal from `p` on, after `acc` was read:
/// its contents and the position after the closing quote.
pub open spec fn string_body(s: Seq<char>, p: int, acc: Seq<char>) -> Result<(Seq<char>, int), LexError>
    decreases s.len() - p,
{
    if p < 0 || p >= s.len() {
        Err(LexError::UnterminatedStringLiteral)
    } else if s[p] == '"' {
        Ok((acc, p + 1))
    } else if s[p] == '\\' {
        if p + 1 < s.len() {
            string_body(s, p + 2, acc.push(escape_char(s[p + 1])))
        } else {
            Err(LexError::UnterminatedStringLiteral)
        }
    } else {
        string_body(s, p + 1, acc.push(s[p]))
    }
}

/// The value of a sequence of decimal digits.
pub open spec fn digits_value(d: Seq<char>) -> nat
    decreases d.len(),
{
    if d.len() == 0 {
        0
    } else {
        digits_value(d.drop_last()) * 10 + ((d.last() as nat) - ('0' as nat)) as nat
    }
}

/// The value of an integer literal: its decimal value where that fits an `i32`, else 0.
pub open spec fn int_literal_value(d: Seq<char>) -> i32 {
    if digits_value(d) <= i32::MAX {
        digits_value(d) as i32
    } else {
        0
    }
}

/// The token a word stands for: a keyword, or else an identifier.
pub open spec fn keyword_or_identifier(w: Seq<char>) -> SpecToken {
    if w == seq!['i', 'n', 't'] {
        SpecToken::Int
    } else if w == seq!['c', 'h', 'a', 'r'] {
        SpecToken::Char
    } else if w == seq!['r', 'e', 't', 'u', 'r', 'n'] {
        SpecToken::Return
    } else if w == seq!['i', 'f'] {
        SpecToken::If
    } else if w == seq!['e', 'l', 's', 'e'] {
        SpecToken::Else
    } else if w == seq!['s', 'w', 'i', 't', 'c', 'h'] {
        SpecToken::Switch
    } else if w == seq!['c', 'a', 's', 'e'] {
        SpecToken::Case
    } else if w == seq!['d', 'e', 'f', 'a', 'u', 'l', 't'] {
        SpecToken::DefaultCase
    } else if w == seq!['b', 'r', 'e', 'a', 'k'] {
        SpecToken::Break
    } else if w == seq!['c', 'o', 'n', 't', 'i', 'n', 'u', 'e'] {
        SpecToken::Continue
    } else if w == seq!['w', 'h', 'i', 'l', 'e'] {
        SpecToken::While
    } else if w == seq!['d', 'o'] {
        SpecToken::Do
    } else if w == seq!['f', 'o', 'r'] {
        SpecToken::For
    } else {
        SpecToken::Identifier(w)
    }
}

/// The token a preprocessor directive name stands for.
pub open spec fn directive_from(name: Seq<char>) -> Result<SpecToken, LexError> {
    if name == seq!['i', 'n', 'c', 'l', 'u', 'd', 'e'] {
        Ok(SpecToken::Include)
    } else if name == seq!['d', 'e', 'f', 'i', 'n', 'e'] {
        Ok(SpecToken::Define)
    } else {
        Err(LexError::UnsupportedDirective)
    }
}

/// A char literal whose opening quote stands at `q`.
pub open spec fn char_literal(s: Seq<char>, q: int) -> Result<Option<(SpecToken, int)>, LexError> {
    let p = q + 1;
    if p < 0 || p >= s.len() {
        Err(LexError::UnterminatedCharLiteral)
    } else if s[p] == '\\' {
        if p + 1 >= s.len() {
            Err(LexError::UnterminatedCharLiteral)
        } else {
            char_literal_close(s, p + 2, escape_char(s[p + 1]))
        }
    } else {
        char_literal_close(s, p + 1, s[p])
    }
}

pub open spec fn char_literal_close(s: Seq<char>, p: int, c: char) -> Result<Option<(SpecToken, int)>, LexError> {
    if 0 <= p < s.len() && s[p] == '\'' {
        Ok(Some((SpecToken::CharLiteral(c), p + 1)))
    } else {
        Err(LexError::ExpectedClosingQuote)
    }
}

/// The character at `p`, if there is one.
pub open spec fn char_at(s: Seq<char>, p: int) -> Option<char> {
    if 0 <= p < s.len() {
        Some(s[p])
    } else {
        None
    }
}

/// An operator token that ends at `e`.
pub open spec fn operator(op: Seq<char>, e: int) -> Result<Option<(SpecToken, int)>, LexError> {
    Ok(Some((SpecToken::Operator(op), e)))
}

/// A token `t` that ends at `e`.
pub open spec fn token(t: SpecToken, e: int) -> Result<Option<(SpecToken, int)>, LexError> {
    Ok(Some((t, e)))
}

/// An operator that is `c` alone or, followed by `second`, the two characters.
pub open spec fn one_or_two(s: Seq<char>, q: int, c: char, second: char) -> Result<Option<(SpecToken, int)>, LexError> {
    if char_at(s, q + 1) == Some(second) {
        operator(seq![c, second], q + 2)
    } else {
        operator(seq![c], q + 1)
    }
}

pub proof fn lemma_skip_ws(s: Seq<char>, p: int)
    requires
        0 <= p,
    ensures
        p <= skip_ws(s, p),
        p <= s.len() ==> skip_ws(s, p) <= s.len(),
        p > s.len() ==> skip_ws(s, p) == p,
        0 <= skip_ws(s, p) < s.len() ==> !spec_is_whitespace(s[skip_ws(s, p)]),
    decreases s.len() - p,
{
    if 0 <= p < s.len() && spec_is_whitespace(s[p]) {
        lemma_skip_ws(s, p + 1);
    }
}

pub proof fn lemma_line_comment_end(s: Seq<char>, p: int)
    requires
        0 <= p <= s.len(),
    ensures
        p <= line_comment_end(s, p) <= s.len(),
    decreases s.len() - p,
{
    if p < s.len() && s[p] != '\n' {
        lemma_line_comment_end(s, p + 1);
    }
}

pub proof fn lemma_block_comment_end(s: Seq<char>, p: int)
    requires
        0 <= p,
    ensures
        block_comment_end(s, p) matches Some(e) ==> p + 2 <= e <= s.len(),
    decreases s.len() - p,
{
    if 0 <= p < s.len() && !(s[p] == '*' && p + 1 < s.len() && s[p + 1] == '/') {
        lemma_block_comment_end(s, p + 1);
    }
}

pub proof fn lemma_runs(s: Seq<char>, p: int)
    requires
        0 <= p,
    ensures
        p <= alpha_end(s, p),
        p <= ident_end(s, p),
        p <= digits_end(s, p),
        p <= s.len() ==> alpha_end(s, p) <= s.len() && ident_end(s, p) <= s.len() && digits_end(s, p) <= s.len(),
    decreases s.len() - p,
{
    if 0 <= p < s.len() {
        lemma_runs(s, p + 1);
    }
}

pub proof fn lemma_string_body(s: Seq<char>, p: int, acc: Seq<char>)
    requires
        0 <= p,
    ensures
        string_body(s, p, acc) matches Ok((_, e)) ==> p < e <= s.len(),
    decreases s.len() - p,
{
    if 0 <= p < s.len() && s[p] != '"' {
        if s[p] == '\\' {
            if p + 1 < s.len() {
                lemma_string_body(s, p + 2, acc.push(escape_char(s[p + 1])));
            }
        } else {
            lemma_string_body(s, p + 1, acc.push(s[p]));
        }
    }
}

/// The next token of `s` at or after position `p`, with the position just after it;
/// `None` at the end of the input. Whitespace and comments between tokens are skipped.
pub open spec fn spec_scan(s: Seq<char>, p: int) -> Result<Option<(SpecToken, int)>, LexError>
    decreases s.len() - p,
{
    let q = skip_ws(s, p);
    if p < 0 || q < 0 || q >= s.len() {
        Ok(None)
    } else {
        let c = s[q];
        if c == ';' {
            token(SpecToken::Semicolon, q + 1)
        } else if c == ',' {
            token(SpecToken::Comma, q + 1)
        } else if c == ':' {
            token(SpecToken::Colon, q + 1)
        } else if c == '(' {
            token(SpecToken::OpenParentheses, q + 1)
        } else if c == ')' {
            token(SpecToken::ClosedParentheses, q + 1)
        } else if c == '{' {
            token(SpecToken::OpenBracket, q + 1)
        } else if c == '}' {
            token(SpecToken::ClosedBracket, q + 1)
        } else if c == '#' {
            let e = alpha_end(s, q + 1);
            match directive_from(s.subrange(q + 1, e)) {
                Ok(t) => token(t, e),
                Err(err) => Err(err),
            }
        } else if c == '"' {
            match string_body(s, q + 1, Seq::empty()) {
                Ok((body, e)) => token(SpecToken::StringLiteral(body), e),
                Err(err) => Err(err),
            }
        } else if c == '\'' {
            char_literal(s, q)
        } else if c == '%' {
            operator(seq!['%'], q + 1)
        } else if c == '*' {
            operator(seq!['*'], q + 1)
        } else if c == '+' {
            if char_at(s, q + 1) == Some('+') {
                operator(seq!['+', '+'], q + 2)
            } else {
                one_or_two(s, q, '+', '=')
            }
        } else if c == '-' {
            if char_at(s, q + 1) == Some('-') {
                operator(seq!['-', '-'], q + 2)
            } else {
                one_or_two(s, q, '-', '=')
            }
        } else if c == '<' {
            one_or_two(s, q, '<', '=')
        } else if c == '>' {
            one_or_two(s, q, '>', '=')
        } else if c == '=' {
            one_or_two(s, q, '=', '=')
        } else if c == '!' {
            if char_at(s, q + 1) == Some('=') {
                operator(seq!['!', '='], q + 2)
            } else {
                Err(LexError::ExpectedEqualsAfterBang)
            }
        } else if c == '&' {
            if char_at(s, q + 1) == Some('&') {
                operator(seq!['&', '&'], q + 2)
            } else {
                Err(LexError::ExpectedSecondAmpersand)
            }
        } else if c == '/' {
            if char_at(s, q + 1) == Some('/') {
                proof {
                    lemma_skip_ws(s, p);
                    lemma_line_comment_end(s, q + 2);
                }
                spec_scan(s, line_comment_end(s, q + 2))
            } else if char_at(s, q + 1) == Some('*') {
                proof {
                    lemma_skip_ws(s, p);
                    lemma_block_comment_end(s, q + 2);
                }
                match block_comment_end(s, q + 2) {
                    Some(e) => spec_scan(s, e),
                    None => Err(LexError::UnterminatedBlockComment),
                }
            } else {
                operator(seq!['/'], q + 1)
            }
        } else if is_digit(c) {
            let e = digits_end(s, q + 1);
            token(SpecToken::IntegerLiteral(int_literal_value(s.subrange(q, e))), e)
        } else if is_ident_start(c) {
            let e = ident_end(s, q + 1);
            token(keyword_or_identifier(s.subrange(q, e)), e)
        } else {
            Err(LexError::UnexpectedCharacter(c))
        }
    }
}

/// Every token ends after the position the scan started from and within the
/// input, so scanning token after token comes to an end.
pub proof fn lemma_scan_progress(s: Seq<char>, p: int)
    requires
        0 <= p,
    ensures
        spec_scan(s, p) matches Ok(Some((_, e))) ==> p < e <= s.len(),
    decreases s.len() - p,
{
    let q = skip_ws(s, p);
    lemma_skip_ws(s, p);
    if q < s.len() {
        let c = s[q];
        lemma_runs(s, q + 1);
        if c == '"' {
            lemma_string_body(s, q + 1, Seq::empty());
        } else if c == '/' {
            if char_at(s, q + 1) == Some('/') {
                lemma_line_comment_end(s, q + 2);
                lemma_scan_progress(s, line_comment_end(s, q + 2));
            } else if char_at(s, q + 1) == Some('*') {
                lemma_block_comment_end(s, q + 2);
                match block_comment_end(s, q + 2) {
                    Some(e) => lemma_scan_progress(s, e),
                    None => {},
                }
            }
        }
    }
}

/// Whether the input from `p` on holds only whitespace and complete comments
/// (a line comment may run to the end of the input).
pub open spec fn only_blank(s: Seq<char>, p: int) -> bool
    decreases s.len() - p,
{
    let q = skip_ws(s, p);
    if p < 0 || q < 0 || q >= s.len() {
        true
    } else if s[q] == '/' && char_at(s, q + 1) == Some('/') {
        proof {
            lemma_skip_ws(s, p);
            lemma_line_comment_end(s, q + 2);
        }
        only_blank(s, line_comment_end(s, q + 2))
    } else if s[q] == '/' && char_at(s, q + 1) == Some('*') {
        proof {
            lemma_skip_ws(s, p);
            lemma_block_comment_end(s, q + 2);
        }
        match block_comment_end(s, q + 2) {
            Some(e) => only_blank(s, e),
            None => false,
        }
    } else {
        false
    }
}

/// The scan finds no token exactly when the rest of the input is only
/// whitespace and complete comments.
pub proof fn lemma_scan_none_iff_blank(s: Seq<char>, p: int)
    requires
        0 <= p,
    ensures
        (spec_scan(s, p) == Ok::<Option<(SpecToken, int)>, LexError>(None)) <==> only_blank(s, p),
    decreases s.len() - p,
{
    let q = skip_ws(s, p);
    lemma_skip_ws(s, p);
    if q < s.len() && s[q] == '/' {
        if char_at(s, q + 1) == Some('/') {
            lemma_line_comment_end(s, q + 2);
            lemma_scan_none_iff_blank(s, line_comment_end(s, q + 2));
        } else if char_at(s, q + 1) == Some('*') {
            lemma_block_comment_end(s, q + 2);
            match block_comment_end(s, q + 2) {
                Some(e) => lemma_scan_none_iff_blank(s, e),
                None => {},
            }
        }
    }
}

/// At the end of the input, and after it, there is no token: once the scan
/// reports the end, it keeps reporting it.
pub proof fn lemma_scan_end_is_final(s: Seq<char>, p: int)
    requires
        p >= s.len(),
    ensures
        spec_scan(s, p) == Ok::<Option<(SpecToken, int)>, LexError>(None),
{
}

/// Whitespace before a token does not change what is scanned.
pub proof fn lemma_scan_skips_whitespace(s: Seq<char>, p: int)
    requires
        0 <= p,
    ensures
        spec_scan(s, p) == spec_scan(s, skip_ws(s, p)),
{
    let q = skip_ws(s, p);
    lemma_skip_ws(s, p);
    assert(skip_ws(s, q) == q);
}

/// Every ASCII letter, upper or lower case, and the underscore start a word:
/// the scan reads the whole run of letters, digits and underscores from
/// there and gives the keyword it spells or else an identifier.
pub proof fn lemma_letters_start_words(s: Seq<char>, p: int)
    requires
        0 <= p,
        0 <= skip_ws(s, p) < s.len(),
        ('a' <= s[skip_ws(s, p)] && s[skip_ws(s, p)] <= 'z') || ('A' <= s[skip_ws(s, p)] && s[skip_ws(s, p)] <= 'Z')
            || s[skip_ws(s, p)] == '_',
    ensures
        spec_scan(s, p) == Ok::<Option<(SpecToken, int)>, LexError>(
            Some((
                keyword_or_identifier(s.subrange(skip_ws(s, p), ident_end(s, skip_ws(s, p) + 1))),
                ident_end(s, skip_ws(s, p) + 1),
            )),
        ),
        !(spec_scan(s, p) matches Err(LexError::UnexpectedCharacter(_))),
{
}

/// A word read by the scan is the longest run of letters, digits and
/// underscores: it stops at the end of the input or at another character.
pub proof fn lemma_word_is_maximal(s: Seq<char>, p: int)
    requires
        0 <= p <= s.len(),
    ensures
        p <= ident_end(s, p) <= s.len(),
        forall|i: int| p <= i < ident_end(s, p) ==> #[trigger] is_ident_char(s[i]),
        ident_end(s, p) < s.len() ==> !is_ident_char(s[ident_end(s, p)]),
    decreases s.len() - p,
{
    if p < s.len() && is_ident_char(s[p]) {
        lemma_word_is_maximal(s, p + 1);
    }
}

/// How the scan reads punctuation and operators at the first character `c`
/// after the whitespace: the two-character operators `== <= >= != && ++ --
/// += -=` are one token, the others one character; `!` and `&` alone are
/// errors.
pub proof fn lemma_operator_tokens(s: Seq<char>, p: int)
    requires
        0 <= p,
        0 <= skip_ws(s, p) < s.len(),
    ensures
        ({
            let q = skip_ws(s, p);
            let c = s[q];
            let next = char_at(s, q + 1);
            let one = |t: SpecToken| Ok::<Option<(SpecToken, int)>, LexError>(Some((t, q + 1)));
            let op1 = Ok::<Option<(SpecToken, int)>, LexError>(Some((SpecToken::Operator(seq![c]), q + 1)));
            let op2 = |d: char| Ok::<Option<(SpecToken, int)>, LexError>(Some((SpecToken::Operator(seq![c, d]), q + 2)));
            &&& c == ';' ==> spec_scan(s, p) == one(SpecToken::Semicolon)
            &&& c == ',' ==> spec_scan(s, p) == one(SpecToken::Comma)
            &&& c == ':' ==> spec_scan(s, p) == one(SpecToken::Colon)
            &&& c == '(' ==> spec_scan(s, p) == one(SpecToken::OpenParentheses)
            &&& c == ')' ==> spec_scan(s, p) == one(SpecToken::ClosedParentheses)
            &&& c == '{' ==> spec_scan(s, p) == one(SpecToken::OpenBracket)
            &&& c == '}' ==> spec_scan(s, p) == one(SpecToken::ClosedBracket)
            &&& (c == '*' || c == '%') ==> spec_scan(s, p) == op1
            &&& c == '/' && next != Some('/') && next != Some('*') ==> spec_scan(s, p) == op1
            &&& (c == '=' || c == '<' || c == '>') && next == Some('=') ==> spec_scan(s, p) == op2('=')
            &&& (c == '=' || c == '<' || c == '>') && next != Some('=') ==> spec_scan(s, p) == op1
            &&& c == '+' && next == Some('+') ==> spec_scan(s, p) == op2('+')
            &&& c == '-' && next == Some('-') ==> spec_scan(s, p) == op2('-')
            &&& (c == '+' || c == '-') && next == Some('=') ==> spec_scan(s, p) == op2('=')
            &&& (c == '+' || c == '-') && next != Some(c) && next != Some('=') ==> spec_scan(s, p) == op1
            &&& c == '!' && next == Some('=') ==> spec_scan(s, p) == op2('=')
            &&& c == '!' && next != Some('=') ==> spec_scan(s, p) == Err::<Option<(SpecToken, int)>, LexError>(
                LexError::ExpectedEqualsAfterBang,
            )
            &&& c == '&' && next == Some('&') ==> spec_scan(s, p) == op2('&')
            &&& c == '&' && next != Some('&') ==> spec_scan(s, p) == Err::<Option<(SpecToken, int)>, LexError>(
                LexError::ExpectedSecondAmpersand,
            )
        }),
{
}

/// A decimal number is read as one integer literal over the whole run of
/// digits.
pub proof fn lemma_number_tokens(s: Seq<char>, p: int)
    requires
        0 <= p,
        0 <= skip_ws(s, p) < s.len(),
        '0' <= s[skip_ws(s, p)] && s[skip_ws(s, p)] <= '9',
    ensures
        spec_scan(s, p) == Ok::<Option<(SpecToken, int)>, LexError>(
            Some((
                SpecToken::IntegerLiteral(
                    int_literal_value(s.subrange(skip_ws(s, p), digits_end(s, skip_ws(s, p) + 1))),
                ),
                digits_end(s, skip_ws(s, p) + 1),
            )),
        ),
{
}

/// The keywords are read as their own tokens; every other word as an identifier.
pub proof fn lemma_keywords(w: Seq<char>)
    ensures
        keyword_or_identifier(seq!['i', 'n', 't']) == SpecToken::Int,
        keyword_or_identifier(seq!['c', 'h', 'a', 'r']) == SpecToken::Char,
        keyword_or_identifier(seq!['r', 'e', 't', 'u', 'r', 'n']) == SpecToken::Return,
        keyword_or_identifier(seq!['i', 'f']) == SpecToken::If,
        keyword_or_identifier(seq!['e', 'l', 's', 'e']) == SpecToken::Else,
        keyword_or_identifier(seq!['s', 'w', 'i', 't', 'c', 'h']) == SpecToken::Switch,
        keyword_or_identifier(seq!['c', 'a', 's', 'e']) == SpecToken::Case,
        keyword_or_identifier(seq!['d', 'e', 'f', 'a', 'u', 'l', 't']) == SpecToken::DefaultCase,
        keyword_or_identifier(seq!['b', 'r', 'e', 'a', 'k']) == SpecToken::Break,
        keyword_or_identifier(seq!['c', 'o', 'n', 't', 'i', 'n', 'u', 'e']) == SpecToken::Continue,
        keyword_or_identifier(seq!['w', 'h', 'i', 'l', 'e']) == SpecToken::While,
        keyword_or_identifier(seq!['d', 'o']) == SpecToken::Do,
        keyword_or_identifier(seq!['f', 'o', 'r']) == SpecToken::For,
        keyword_or_identifier(w) is Identifier ==> keyword_or_identifier(w) == SpecToken::Identifier(w),
        !(keyword_or_identifier(w) is Identifier) ==> w.len() >= 2,
{
}

/// A line comment runs up to and including the first newline after its
/// start, or to the end of the input when there is none.
pub proof fn lemma_line_comment_extent(s: Seq<char>, p: int)
    requires
        0 <= p <= s.len(),
    ensures
        p <= line_comment_end(s, p) <= s.len(),
        forall|i: int| p <= i < line_comment_end(s, p) - 1 ==> s[i] != '\n',
        line_comment_end(s, p) < s.len() ==> line_comment_end(s, p) > p && s[line_comment_end(s, p) - 1] == '\n',
        line_comment_end(s, p) == s.len() && (p == s.len() || s[s.len() - 1] != '\n') ==> forall|i: int|
            p <= i < s.len() ==> s[i] != '\n',
    decreases s.len() - p,
{
    if p < s.len() && s[p] != '\n' {
        lemma_line_comment_extent(s, p + 1);
    }
}

/// A block comment ends just after the first `*/` from its start; without
/// one the comment is unterminated.
pub proof fn lemma_block_comment_extent(s: Seq<char>, p: int)
    requires
        0 <= p,
    ensures
        block_comment_end(s, p) matches Some(e) ==> p + 2 <= e <= s.len() && s[e - 2] == '*' && s[e - 1] == '/'
            && forall|i: int| p <= i < e - 2 ==> !(#[trigger] s[i] == '*' && s[i + 1] == '/'),
        block_comment_end(s, p) is None ==> forall|i: int|
            p <= i < s.len() - 1 ==> !(#[trigger] s[i] == '*' && s[i + 1] == '/'),
    decreases s.len() - p,
{
    if 0 <= p < s.len() && !(s[p] == '*' && p + 1 < s.len() && s[p + 1] == '/') {
        lemma_block_comment_extent(s, p + 1);
    }
}

/// A `//` comment and a complete `/* */` comment are skipped: the scan goes
/// on after them.
pub proof fn lemma_comments_skipped(s: Seq<char>, p: int)
    requires
        0 <= p,
        0 <= skip_ws(s, p) < s.len(),
        s[skip_ws(s, p)] == '/',
    ensures
        char_at(s, skip_ws(s, p) + 1) == Some('/') ==> spec_scan(s, p) == spec_scan(
            s,
            line_comment_end(s, skip_ws(s, p) + 2),
        ),
        char_at(s, skip_ws(s, p) + 1) == Some('*') ==> match block_comment_end(s, skip_ws(s, p) + 2) {
            Some(e) => spec_scan(s, p) == spec_scan(s, e),
            None => spec_scan(s, p) == Err::<Option<(SpecToken, int)>, LexError>(LexError::UnterminatedBlockComment),
        },
{
}

// ---------------------------------------------------------------------------
// The lexer.

/// Reads the source text token by token.
#[derive(Debug, PartialEq, Clone)]
pub struct Lexer {
    input: Vec<char>,
    position: usize,
}

/// True when `w` holds exactly the characters of `k`.
fn word_is(w: &Vec<char>, k: &[char]) -> (r: bool)
    ensures
        r == (w@ == k@),
{
    if w.len() != k.len() {
        return false;
    }
    let mut i: usize = 0;
    while i < w.len()
        invariant
            w.len() == k.len(),
            i <= w.len(),
            forall|j: int| 0 <= j < i ==> w@[j] == k@[j],
        decreases w.len() - i,
    {
        if w[i] != k[i] {
            return false;
        }
        i = i + 1;
    }
    assert(w@ =~= k@);
    true
}

/// A string holding the characters of `v`.
fn string_from_chars(v: &Vec<char>) -> (r: String)
    ensures
        r@ == v@,
{
    let mut r = String::new();
    let mut i: usize = 0;
    while i < v.len()
        invariant
            i <= v.len(),
            r@ == v@.subrange(0, i as int),
        decreases v.len() - i,
    {
        push_char(&mut r, v[i]);
        assert(v@.subrange(0, i + 1) =~= v@.subrange(0, i as int).push(v@[i as int]));
        i = i + 1;
    }
    assert(v@.subrange(0, v.len() as int) =~= v@);
    r
}

fn operator_token(a: char, b: Option<char>) -> (t: TokenType)
    ensures
        t@ == SpecToken::Operator(
            match b {
                Some(b) => seq![a, b],
                None => seq![a],
            },
        ),
{
    let mut s = String::new();
    push_char(&mut s, a);
    if let Some(b) = b {
        push_char(&mut s, b);
        assert(s@ =~= seq![a, b]);
    } else {
        assert(s@ =~= seq![a]);
    }
    TokenType::Operator(s)
}

impl Lexer {
    /// The characters of the source text.
    pub closed spec fn chars(&self) -> Seq<char> {
        self.input@
    }

    /// The position of the next character to read.
    pub closed spec fn pos(&self) -> int {
        self.position as int
    }

    /// A lexer at the start of `source`.
    pub fn new(source: &str) -> (r: Self)
        ensures
            r.chars() == source@,
            r.pos() == 0,
    {
        let mut input: Vec<char> = Vec::new();
        let ghost all = source@;
        proof {
            broadcast use vstd::string::axiom_spec_iter;
        }
        for c in iter: source.chars()
            invariant
                iter.seq() == all,
                input@ == iter.seq().take(iter.index() as int),
        {
            input.push(c);
            assert(iter.seq().take(iter.index() + 1) =~= iter.seq().take(iter.index() as int).push(c));
        }
        assert(all.take(all.len() as int) =~= all);
        Lexer { input, position: 0 }
    }

    fn advance_char(&mut self) -> (r: Option<char>)
        ensures
            final(self).input@ == old(self).input@,
            old(self).position < old(self).input@.len() ==> r == Some(old(self).input@[old(self).position as int])
                && final(self).position == old(self).position + 1,
            old(self).position >= old(self).input@.len() ==> r is None && final(self).position == old(self).position,
    {
        if self.position < self.input.len() {
            let ch = self.input[self.position];
            self.position += 1;
            Some(ch)
        } else {
            None
        }
    }

    fn peek_char(&self) -> (r: Option<char>)
        ensures
            r == char_at(self.input@, self.position as int),
    {
        if self.position < self.input.len() {
            Some(self.input[self.position])
        } else {
            None
        }
    }

    fn skip_whitespaces(&mut self)
        ensures
            final(self).input@ == old(self).input@,
            final(self).position == skip_ws(old(self).input@, old(self).position as int),
    {
        let ghost s = self.input@;
        let ghost p0 = self.position as int;
        while self.position < self.input.len() && is_whitespace(self.input[self.position])
            invariant
                self.input@ == s,
                s == old(self).input@,
                p0 == old(self).position,
                skip_ws(s, self.position as int) == skip_ws(s, p0),
            decreases s.len() - self.position,
        {
            self.position += 1;
        }
    }
}

pub proof fn lemma_digits_value_push(d: Seq<char>, c: char)
    ensures
        digits_value(d.push(c)) == digits_value(d) * 10 + ((c as nat) - ('0' as nat)) as nat,
{
    assert(d.push(c).drop_last() =~= d);
}

/// The token a preprocessor directive name stands for.
fn directive_token(name: &Vec<char>) -> (r: Result<TokenType, LexError>)
    ensures
        match directive_from(name@) {
            Ok(t) => r matches Ok(tt) && tt@ == t,
            Err(e) => r == Err::<TokenType, LexError>(e),
        },
{
    if word_is(name, &['i', 'n', 'c', 'l', 'u', 'd', 'e']) {
        Ok(TokenType::Include)
    } else if word_is(name, &['d', 'e', 'f', 'i', 'n', 'e']) {
        Ok(TokenType::Define)
    } else {
        Err(LexError::UnsupportedDirective)
    }
}

fn keyword_or_identifier_token(word: &Vec<char>) -> (t: TokenType)
    ensures
        t@ == keyword_or_identifier(word@),
{
    if word_is(word, &['i', 'n', 't']) {
        TokenType::Int
    } else if word_is(word, &['c', 'h', 'a', 'r']) {
        TokenType::Char
    } else if word_is(word, &['r', 'e', 't', 'u', 'r', 'n']) {
        TokenType::Return
    } else if word_is(word, &['i', 'f']) {
        TokenType::If
    } else if word_is(word, &['e', 'l', 's', 'e']) {
        TokenType::Else
    } else if word_is(word, &['s', 'w', 'i', 't', 'c', 'h']) {
        TokenType::Switch
    } else if word_is(word, &['c', 'a', 's', 'e']) {
        TokenType::Case
    } else if word_is(word, &['d', 'e', 'f', 'a', 'u', 'l', 't']) {
        TokenType::DefaultCase
    } else if word_is(word, &['b', 'r', 'e', 'a', 'k']) {
        TokenType::Break
    } else if word_is(word, &['c', 'o', 'n', 't', 'i', 'n', 'u', 'e']) {
        TokenType::Continue
    } else if word_is(word, &['w', 'h', 'i', 'l', 'e']) {
        TokenType::While
    } else if word_is(word, &['d', 'o']) {
        TokenType::Do
    } else if word_is(word, &['f', 'o', 'r']) {
        TokenType::For
    } else {
        TokenType::Identifier(string_from_chars(word))
    }
}

fn escape(c: char) -> (r: char)
    ensures
        r == escape_char(c),
{
    if c == 'n' {
        '\n'
    } else if c == 't' {
        '\t'
    } else {
        c
    }
}

fn is_ascii_digit(c: char) -> (r: bool)
    ensures
        r == is_digit(c),
{
    '0' <= c && c <= '9'
}

fn starts_identifier(c: char) -> (r: bool)
    ensures
        r == is_ident_start(c),
{
    ('a' <= c && c <= 'z') || ('A' <= c && c <= 'Z') || c == '_'
}

/// Maps a result of the lexer, and the position it left, to its model.
pub open spec fn scan_view(r: Result<Option<TokenType>, LexError>, end: int) -> Result<Option<(SpecToken, int)>, LexError> {
    match r {
        Ok(Some(t)) => Ok(Some((t@, end))),
        Ok(None) => Ok(None),
        Err(e) => Err(e),
    }
}

impl Lexer {
    fn scan_identifier(&mut self) -> (t: TokenType)
        requires
            old(self).position < old(self).input@.len(),
            is_ident_start(old(self).input@[old(self).position as int]),
        ensures
            final(self).input@ == old(self).input@,
            final(self).position == ident_end(old(self).input@, old(self).position + 1),
            t@ == keyword_or_identifier(
                old(self).input@.subrange(
                    old(self).position as int,
                    ident_end(old(self).input@, old(self).position + 1),
                ),
            ),
    {
        let ghost s = self.input@;
        let ghost p0 = self.position as int;
        let mut buffer: Vec<char> = Vec::new();
        buffer.push(self.input[self.position]);
        self.advance_char();
        assert(buffer@ =~= s.subrange(p0, p0 + 1));
        while self.position < self.input.len() && (is_alphanumeric(self.input[self.position])
            || self.input[self.position] == '_')
            invariant
                self.input@ == s,
                s == old(self).input@,
                p0 == old(self).position,
                p0 < self.position <= s.len(),
                buffer@ == s.subrange(p0, self.position as int),
                ident_end(s, self.position as int) == ident_end(s, p0 + 1),
            decreases s.len() - self.position,
        {
            buffer.push(self.input[self.position]);
            assert(s.subrange(p0, self.position + 1) =~= s.subrange(p0, self.position as int).push(
                s[self.position as int],
            ));
            self.position += 1;
        }
        keyword_or_identifier_token(&buffer)
    }

    fn scan_number(&mut self) -> (t: TokenType)
        requires
            old(self).position < old(self).input@.len(),
            is_digit(old(self).input@[old(self).position as int]),
        ensures
            final(self).input@ == old(self).input@,
            final(self).position == digits_end(old(self).input@, old(self).position + 1),
            t@ == SpecToken::IntegerLiteral(
                int_literal_value(
                    old(self).input@.subrange(
                        old(self).position as int,
                        digits_end(old(self).input@, old(self).position + 1),
                    ),
                ),
            ),
    {
        let ghost s = self.input@;
        let ghost p0 = self.position as int;
        let first = self.input[self.position];
        let mut value: u64 = (first as u32 - '0' as u32) as u64;
        let mut overflow = false;
        self.advance_char();
        proof {
            lemma_digits_value_push(Seq::empty(), first);
            assert(s.subrange(p0, p0 + 1) =~= Seq::<char>::empty().push(first));
        }
        while self.position < self.input.len() && is_ascii_digit(self.input[self.position])
            invariant
                self.input@ == s,
                s == old(self).input@,
                p0 == old(self).position,
                p0 < self.position <= s.len(),
                digits_end(s, self.position as int) == digits_end(s, p0 + 1),
                overflow == (digits_value(s.subrange(p0, self.position as int)) > i32::MAX),
                !overflow ==> value == digits_value(s.subrange(p0, self.position as int)),
            decreases s.len() - self.position,
        {
            let c = self.input[self.position];
            let d: u64 = (c as u32 - '0' as u32) as u64;
            proof {
                lemma_digits_value_push(s.subrange(p0, self.position as int), c);
                assert(s.subrange(p0, self.position + 1) =~= s.subrange(p0, self.position as int).push(c));
            }
            if !overflow {
                value = value * 10 + d;
                if value > i32::MAX as u64 {
                    overflow = true;
                }
            }
            self.position += 1;
        }
        if overflow {
            TokenType::IntegerLiteral(0)
        } else {
            TokenType::IntegerLiteral(value as i32)
        }
    }

    fn scan_directive(&mut self) -> (r: Result<TokenType, LexError>)
        requires
            old(self).position <= old(self).input@.len(),
        ensures
            final(self).input@ == old(self).input@,
            final(self).position == alpha_end(old(self).input@, old(self).position as int),
            match directive_from(
                old(self).input@.subrange(
                    old(self).position as int,
                    alpha_end(old(self).input@, old(self).position as int),
                ),
            ) {
                Ok(t) => r matches Ok(tt) && tt@ == t,
                Err(e) => r == Err::<TokenType, LexError>(e),
            },
    {
        let ghost s = self.input@;
        let ghost p0 = self.position as int;
        let mut buffer: Vec<char> = Vec::new();
        assert(buffer@ =~= s.subrange(p0, p0));
        while self.position < self.input.len() && is_alphabetic(self.input[self.position])
            invariant
                self.input@ == s,
                s == old(self).input@,
                p0 == old(self).position,
                p0 <= self.position <= s.len(),
                buffer@ == s.subrange(p0, self.position as int),
                alpha_end(s, self.position as int) == alpha_end(s, p0),
            decreases s.len() - self.position,
        {
            buffer.push(self.input[self.position]);
            assert(s.subrange(p0, self.position + 1) =~= s.subrange(p0, self.position as int).push(
                s[self.position as int],
            ));
            self.position += 1;
        }
        directive_token(&buffer)
    }

    fn scan_string(&mut self) -> (r: Result<TokenType, LexError>)
        ensures
            final(self).input@ == old(self).input@,
            match string_body(old(self).input@, old(self).position as int, Seq::empty()) {
                Ok((body, e)) => r matches Ok(t) && t@ == SpecToken::StringLiteral(body) && final(self).position == e,
                Err(err) => r == Err::<TokenType, LexError>(err),
            },
    {
        let ghost s = self.input@;
        let ghost p0 = self.position as int;
        let mut buffer = String::new();
        loop
            invariant
                self.input@ == s,
                s == old(self).input@,
                p0 == old(self).position,
                string_body(s, self.position as int, buffer@) == string_body(s, p0, Seq::empty()),
            decreases s.len() - self.position,
        {
            match self.advance_char() {
                Some('"') => {
                    return Ok(TokenType::StringLiteral(buffer));
                },
                Some('\\') => {
                    if let Some(esc) = self.advance_char() {
                        push_char(&mut buffer, escape(esc));
                    }
                },
                Some(c) => {
                    push_char(&mut buffer, c);
                },
                None => {
                    return Err(LexError::UnterminatedStringLiteral);
                },
            }
        }
    }

    fn scan_char_literal(&mut self) -> (r: Result<TokenType, LexError>)
        requires
            old(self).position >= 1,
        ensures
            final(self).input@ == old(self).input@,
            match char_literal(old(self).input@, old(self).position - 1) {
                Ok(Some((t, e))) => r matches Ok(tt) && tt@ == t && final(self).position == e,
                Ok(None) => false,
                Err(err) => r == Err::<TokenType, LexError>(err),
            },
    {
        let character = match self.advance_char() {
            Some('\\') => match self.advance_char() {
                Some(esc) => escape(esc),
                None => {
                    return Err(LexError::UnterminatedCharLiteral);
                },
            },
            Some(c) => c,
            None => {
                return Err(LexError::UnterminatedCharLiteral);
            },
        };
        match self.advance_char() {
            Some('\'') => Ok(TokenType::CharLiteral(character)),
            _ => Err(LexError::ExpectedClosingQuote),
        }
    }

    fn skip_line_comment(&mut self)
        ensures
            final(self).input@ == old(self).input@,
            final(self).position == line_comment_end(old(self).input@, old(self).position as int),
    {
        let ghost s = self.input@;
        let ghost p0 = self.position as int;
        loop
            invariant
                self.input@ == s,
                s == old(self).input@,
                p0 == old(self).position,
                line_comment_end(s, self.position as int) == line_comment_end(s, p0),
            decreases s.len() - self.position,
        {
            match self.advance_char() {
                Some('\n') => {
                    return;
                },
                None => {
                    return;
                },
                Some(_) => {},
            }
        }
    }

    fn skip_block_comment(&mut self) -> (r: bool)
        ensures
            final(self).input@ == old(self).input@,
            r == block_comment_end(old(self).input@, old(self).position as int) is Some,
            r ==> final(self).position == block_comment_end(old(self).input@, old(self).position as int)->0,
    {
        let ghost s = self.input@;
        let ghost p0 = self.position as int;
        loop
            invariant
                self.input@ == s,
                s == old(self).input@,
                p0 == old(self).position,
                block_comment_end(s, self.position as int) == block_comment_end(s, p0),
            decreases s.len() - self.position,
        {
            match self.advance_char() {
                Some('*') => {
                    if self.peek_char() == Some('/') {
                        self.advance_char();
                        return true;
                    }
                },
                Some(_) => {},
                None => {
                    return false;
                },
            }
        }
    }
}

impl Lexer {
    /// Reads the next token. Whitespace and comments before it are skipped;
    /// `Ok(None)` means that the input is used up. The text at the current
    /// position must lex: where it does not, the scan is outside this
    /// contract, and it returns the error that says why.
    #[verifier::rlimit(40)]
    pub fn scan_token(&mut self) -> (r: Result<Option<TokenType>, LexError>)
        requires
            spec_scan(old(self).chars(), old(self).pos()) is Ok,
        ensures
            final(self).chars() == old(self).chars(),
            scan_view(r, final(self).pos()) == spec_scan(old(self).chars(), old(self).pos()),
            r is Ok ==> final(self).pos() >= old(self).pos(),
            r matches Ok(None) ==> final(self).pos() == if old(self).pos() <= old(self).chars().len() {
                old(self).chars().len() as int
            } else {
                old(self).pos()
            },
            r is Ok && old(self).pos() <= old(self).chars().len() ==> final(self).pos() <= final(self).chars().len(),
    {
        let ghost s = self.input@;
        let ghost p0 = self.position as int;
        loop
            invariant
                self.input@ == s,
                s == old(self).input@,
                p0 == old(self).position,
                p0 <= self.position,
                self.position <= s.len() || self.position == p0,
                spec_scan(s, self.position as int) == spec_scan(s, p0),
            decreases s.len() - self.position,
        {
            let ghost p = self.position as int;
            self.skip_whitespaces();
            proof {
                lemma_skip_ws(s, p);
            }
            let ghost q = self.position as int;
            let character = match self.peek_char() {
                Some(c) => c,
                None => {
                    return Ok(None);
                },
            };
            self.advance_char();
            proof {
                lemma_runs(s, q + 1);
                lemma_string_body(s, q + 1, Seq::empty());
            }
            match character {
                ';' => {
                    return Ok(Some(TokenType::Semicolon));
                },
                ',' => {
                    return Ok(Some(TokenType::Comma));
                },
                ':' => {
                    return Ok(Some(TokenType::Colon));
                },
                '(' => {
                    return Ok(Some(TokenType::OpenParentheses));
                },
                ')' => {
                    return Ok(Some(TokenType::ClosedParentheses));
                },
                '{' => {
                    return Ok(Some(TokenType::OpenBracket));
                },
                '}' => {
                    return Ok(Some(TokenType::ClosedBracket));
                },
                '#' => {
                    return match self.scan_directive() {
                        Ok(t) => Ok(Some(t)),
                        Err(e) => Err(e),
                    };
                },
                '"' => {
                    return match self.scan_string() {
                        Ok(t) => Ok(Some(t)),
                        Err(e) => Err(e),
                    };
                },
                '\'' => {
                    return match self.scan_char_literal() {
                        Ok(t) => Ok(Some(t)),
                        Err(e) => Err(e),
                    };
                },
                '%' => {
                    return Ok(Some(operator_token('%', None)));
                },
                '*' => {
                    return Ok(Some(operator_token('*', None)));
                },
                '+' | '-' => {
                    let next = self.peek_char();
                    if next == Some(character) || next == Some('=') {
                        self.advance_char();
                        return Ok(Some(operator_token(character, next)));
                    } else {
                        return Ok(Some(operator_token(character, None)));
                    }
                },
                '<' | '>' | '=' => {
                    if self.peek_char() == Some('=') {
                        self.advance_char();
                        return Ok(Some(operator_token(character, Some('='))));
                    } else {
                        return Ok(Some(operator_token(character, None)));
                    }
                },
                '!' => {
                    match self.peek_char() {
                        Some('=') => {
                            self.advance_char();
                            return Ok(Some(operator_token('!', Some('='))));
                        },
                        _ => {
                            return Err(LexError::ExpectedEqualsAfterBang);
                        },
                    }
                },
                '&' => {
                    match self.peek_char() {
                        Some('&') => {
                            self.advance_char();
                            return Ok(Some(operator_token('&', Some('&'))));
                        },
                        _ => {
                            return Err(LexError::ExpectedSecondAmpersand);
                        },
                    }
                },
                '/' => {
                    match self.peek_char() {
                        Some('/') => {
                            self.advance_char();
                            proof {
                                lemma_line_comment_end(s, q + 2);
                            }
                            self.skip_line_comment();
                        },
                        Some('*') => {
                            self.advance_char();
                            proof {
                                lemma_block_comment_end(s, q + 2);
                            }
                            if !self.skip_block_comment() {
                                return Err(LexError::UnterminatedBlockComment);
                            }
                        },
                        _ => {
                            return Ok(Some(operator_token('/', None)));
                        },
                    }
                },
                _ => {
                    self.position = self.position - 1;
                    if is_ascii_digit(character) {
                        return Ok(Some(self.scan_number()));
                    } else if starts_identifier(character) {
                        return Ok(Some(self.scan_identifier()));
                    } else {
                        return Err(LexError::UnexpectedCharacter(character));
                    }
                },
            }
        }
    }
}

/// The diagnostic for a lexical error.
pub open spec fn lex_error_message(e: LexError) -> Seq<char> {
    match e {
        LexError::UnexpectedCharacter(c) => "Syntax error: unexpected character '"@ + seq![c] + "'.\n"@,
        LexError::ExpectedEqualsAfterBang => "Syntax error: expected '=' after the '!'.\n"@,
        LexError::ExpectedSecondAmpersand => "Syntax error: expected a second '&' after the first one.\n"@,
        LexError::UnterminatedStringLiteral => "Syntax error: unterminated string literal.\n"@,
        LexError::UnterminatedCharLiteral => "Syntax error: unterminated char literal.\n"@,
        LexError::ExpectedClosingQuote => "Syntax error: expected closing ' after char literal.\n"@,
        LexError::UnterminatedBlockComment => "Syntax Error: Unterminated multiline comment. \nAdd */ at the end to terminate it!\n"@,
        LexError::UnsupportedDirective => "Syntax Error: This directive is not supported in this specific version of the compiler.\n"@,
    }
}

impl LexError {
    /// The diagnostic for this error.
    pub fn message(&self) -> (r: String)
        ensures
            r@ == lex_error_message(*self),
    {
        match self {
            LexError::UnexpectedCharacter(c) => {
                let mut m = String::from_str("Syntax error: unexpected character '");
                push_char(&mut m, *c);
                m.append("'.\n");
                m
            },
            LexError::ExpectedEqualsAfterBang => String::from_str("Syntax error: expected '=' after the '!'.\n"),
            LexError::ExpectedSecondAmpersand => String::from_str(
                "Syntax error: expected a second '&' after the first one.\n",
            ),
            LexError::UnterminatedStringLiteral => String::from_str("Syntax error: unterminated string literal.\n"),
            LexError::UnterminatedCharLiteral => String::from_str("Syntax error: unterminated char literal.\n"),
            LexError::ExpectedClosingQuote => String::from_str(
                "Syntax error: expected closing ' after char literal.\n",
            ),
            LexError::UnterminatedBlockComment => String::from_str(
                "Syntax Error: Unterminated multiline comment. \nAdd */ at the end to terminate it!\n",
            ),
            LexError::UnsupportedDirective => String::from_str(
                "Syntax Error: This directive is not supported in this specific version of the compiler.\n",
            ),
        }
    }
}

} // verus!
