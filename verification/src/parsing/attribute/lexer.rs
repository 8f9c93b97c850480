//! The tokens of the attribute text: names, integer and string literals,
//! `=`, `,` and parentheses, separated by optional whitespace.  Names are
//! Rust identifiers: `_` or an XID_Start character, then XID_Continue
//! characters, or a raw identifier `r#name`.  Integer
//! literals are read as Rust reads them: an optional `0x`, `0o` or `0b`
//! prefix, digits of that radix with `_` anywhere after the first, and an
//! optional suffix, which does not change the value.  String literals
//! too: `"..."` with Rust's escapes (`\\x`, `\\u{...}`, line continuations)
//! and raw `r"..."` / `r#"..."#`, each with an optional suffix, which does
//! not change the content.
use vstd::prelude::*;
use crate::text::{chars_of, str_eq, string_from_chars};
use crate::parsing::attribute::models::SyntaxError;

verus! {

/// A token of the attribute text.
#[derive(Debug)]
pub enum Token {
    /// A name, by its text (`r#` included for a raw identifier).
    Ident(String),
    /// One of `=`, `,`, `(`, `)`.
    Punct(char),
    /// A string literal, cooked or raw, by the characters it denotes.
    Str(String),
    /// An integer literal, by its radix and digits (prefix, underscores and
    /// suffix dropped).
    Int(Radix, String),
}

/// The radix of an integer literal: `0b`, `0o`, none, `0x`.
#[derive(Debug, Clone, Copy, PartialEq, Eq, Structural)]
pub enum Radix {
    Binary,
    Octal,
    Decimal,
    Hex,
}

/// The number base of a radix.
pub open spec fn radix_base(r: Radix) -> nat {
    match r {
        Radix::Binary => 2,
        Radix::Octal => 8,
        Radix::Decimal => 10,
        Radix::Hex => 16,
    }
}

/// A token as plain values.
pub enum TokenView {
    Ident(Seq<char>),
    Punct(char),
    Str(Seq<char>),
    Int(Radix, Seq<char>),
}

impl View for Token {
    type V = TokenView;

    open spec fn view(&self) -> TokenView {
        match self {
            Token::Ident(s) => TokenView::Ident(s@),
            Token::Punct(c) => TokenView::Punct(*c),
            Token::Str(s) => TokenView::Str(s@),
            Token::Int(r, s) => TokenView::Int(*r, s@),
        }
    }
}

/// The views of a token sequence.
pub open spec fn tokens_view(s: Seq<Token>) -> Seq<TokenView> {
    s.map_values(|t: Token| t@)
}

/// Whether a character has the Unicode property XID_Start, as
/// unicode-ident's `is_xid_start` tells.
pub uninterp spec fn xid_start(c: char) -> bool;

/// Whether a character has the Unicode property XID_Continue, as
/// unicode-ident's `is_xid_continue` tells.
pub uninterp spec fn xid_continue(c: char) -> bool;

/// The first character of a name: `_` or an XID_Start character.
pub open spec fn is_ident_start(c: char) -> bool {
    c == '_' || xid_start(c)
}

pub open spec fn is_digit(c: char) -> bool {
    '0' <= c && c <= '9'
}

/// A later character of a name: an XID_Continue character.
pub open spec fn is_ident_continue(c: char) -> bool {
    xid_continue(c)
}

pub open spec fn is_space(c: char) -> bool {
    c == ' ' || c == '\t' || c == '\n' || c == '\r'
}

/// Where the name that continues at `i` ends.
pub open spec fn ident_end(s: Seq<char>, i: int) -> int
    decreases s.len() - i,
{
    if 0 <= i < s.len() && is_ident_continue(s[i]) {
        ident_end(s, i + 1)
    } else {
        i
    }
}

/// The value of a digit character in any radix up to 16, or 16 for a
/// character that is no digit.
pub open spec fn char_digit(c: char) -> nat {
    if '0' <= c && c <= '9' {
        (c as int - '0' as int) as nat
    } else if 'a' <= c && c <= 'f' {
        (c as int - 'a' as int + 10) as nat
    } else if 'A' <= c && c <= 'F' {
        (c as int - 'A' as int + 10) as nat
    } else {
        16
    }
}

/// Where the digits of base `b` and underscores that continue at `i` end.
pub open spec fn digits_end(s: Seq<char>, i: int, b: nat) -> int
    decreases s.len() - i,
{
    if 0 <= i < s.len() && (char_digit(s[i]) < b || s[i] == '_') {
        digits_end(s, i + 1, b)
    } else {
        i
    }
}

/// The radix that an integer literal starting at `i` has.
pub open spec fn radix_at(s: Seq<char>, i: int) -> Radix {
    if 0 <= i && i + 1 < s.len() && s[i] == '0' && s[i + 1] == 'x' {
        Radix::Hex
    } else if 0 <= i && i + 1 < s.len() && s[i] == '0' && s[i + 1] == 'o' {
        Radix::Octal
    } else if 0 <= i && i + 1 < s.len() && s[i] == '0' && s[i + 1] == 'b' {
        Radix::Binary
    } else {
        Radix::Decimal
    }
}

/// Where the suffix of a literal, a name that may start at `e`, ends.
pub open spec fn suffix_end(s: Seq<char>, e: int) -> int {
    if 0 <= e < s.len() && is_ident_start(s[e]) {
        ident_end(s, e + 1)
    } else {
        e
    }
}

/// The characters of `s` without underscores.
pub open spec fn without_underscores(s: Seq<char>) -> Seq<char>
    decreases s.len(),
{
    if s.len() == 0 {
        s
    } else if s.last() == '_' {
        without_underscores(s.drop_last())
    } else {
        without_underscores(s.drop_last()).push(s.last())
    }
}

/// The character that a backslash escape denotes.
pub open spec fn escaped(c: char) -> Option<char> {
    if c == 'n' {
        Some('\n')
    } else if c == 'r' {
        Some('\r')
    } else if c == 't' {
        Some('\t')
    } else if c == '0' {
        Some('\0')
    } else if c == '\\' {
        Some('\\')
    } else if c == '"' {
        Some('"')
    } else if c == '\'' {
        Some('\'')
    } else {
        None
    }
}

/// The character with code `v`.
pub open spec fn code_char(v: nat) -> char {
    v as char
}

/// Whether a number is the code of a character.
pub open spec fn is_char_code(v: nat) -> bool {
    v <= 0xD7FF || (0xE000 <= v && v <= 0x10FFFF)
}

/// The two digits of a `\x` escape at `j`: the character they denote, when
/// the first is `0` to `7` and the second a hexadecimal digit.
pub open spec fn hex_escape(s: Seq<char>, j: int) -> Option<char> {
    if 0 <= j && j + 1 < s.len() && char_digit(s[j]) < 8 && char_digit(s[j + 1]) < 16 {
        Some(code_char(char_digit(s[j]) * 16 + char_digit(s[j + 1])))
    } else {
        None
    }
}

/// The rest of a `\u{...}` escape from `j`, with `len` digits read so far
/// and their `value`: the value and where the escape ends, for one to six
/// hexadecimal digits with `_` after the first and a closing brace.
pub open spec fn unicode_digits(s: Seq<char>, j: int, len: nat, value: nat) -> Option<(nat, int)>
    decreases s.len() - j,
{
    if j < 0 || j >= s.len() {
        None
    } else if char_digit(s[j]) < 16 {
        if len == 6 {
            None
        } else {
            unicode_digits(s, j + 1, len + 1, value * 16 + char_digit(s[j]))
        }
    } else if s[j] == '_' && len > 0 {
        unicode_digits(s, j + 1, len, value)
    } else if s[j] == '}' && len > 0 {
        Some((value, j + 1))
    } else {
        None
    }
}

/// A `\u{...}` escape whose brace is at `j`: the character and where the
/// escape ends.
pub open spec fn unicode_escape(s: Seq<char>, j: int) -> Option<(char, int)> {
    if 0 <= j < s.len() && s[j] == '{' {
        match unicode_digits(s, j + 1, 0, 0) {
            Some((v, e)) => if is_char_code(v) {
                Some((code_char(v), e))
            } else {
                None
            },
            None => None,
        }
    } else {
        None
    }
}

/// Past a backslash and a line break: where the string goes on after the
/// whitespace that follows, from `p`; `after_cr` when the last character
/// read was a carriage return, which a line feed must follow.
pub open spec fn skip_line_break(s: Seq<char>, p: int, after_cr: bool) -> Option<int>
    decreases s.len() - p,
{
    if p < 0 || p >= s.len() {
        None
    } else if after_cr {
        if s[p] == '\n' {
            skip_line_break(s, p + 1, false)
        } else {
            None
        }
    } else if is_space(s[p]) {
        skip_line_break(s, p + 1, s[p] == '\r')
    } else {
        Some(p)
    }
}

/// The rest of a string literal from `i` (past its opening quote): the
/// characters it denotes after `acc`, and where it ends past the closing
/// quote.  Escapes are those of Rust string literals; a line break is a
/// line feed, alone or after a carriage return.
pub open spec fn lex_string(s: Seq<char>, i: int, acc: Seq<char>) -> Result<(Seq<char>, int), SyntaxError>
    decreases s.len() - i,
{
    if i < 0 || i >= s.len() {
        Err(SyntaxError::UnterminatedString)
    } else if s[i] == '"' {
        Ok((acc, i + 1))
    } else if s[i] == '\r' {
        if i + 1 < s.len() && s[i + 1] == '\n' {
            lex_string(s, i + 2, acc.push('\n'))
        } else {
            Err(SyntaxError::BareCarriageReturn)
        }
    } else if s[i] == '\\' {
        if i + 1 >= s.len() {
            Err(SyntaxError::UnterminatedString)
        } else if s[i + 1] == 'x' {
            match hex_escape(s, i + 2) {
                Some(c) => lex_string(s, i + 4, acc.push(c)),
                None => Err(SyntaxError::InvalidEscape('x')),
            }
        } else if s[i + 1] == 'u' {
            match unicode_escape(s, i + 2) {
                Some((c, e)) => if i < e <= s.len() {
                    lex_string(s, e, acc.push(c))
                } else {
                    Err(SyntaxError::InvalidEscape('u'))
                },
                None => Err(SyntaxError::InvalidEscape('u')),
            }
        } else if s[i + 1] == '\n' || s[i + 1] == '\r' {
            match skip_line_break(s, i + 2, s[i + 1] == '\r') {
                Some(e) => if i < e <= s.len() {
                    lex_string(s, e, acc)
                } else {
                    Err(SyntaxError::UnterminatedString)
                },
                None => Err(SyntaxError::UnterminatedString),
            }
        } else {
            match escaped(s[i + 1]) {
                Some(c) => lex_string(s, i + 2, acc.push(c)),
                None => Err(SyntaxError::UnknownEscape(s[i + 1])),
            }
        }
    } else {
        lex_string(s, i + 1, acc.push(s[i]))
    }
}

/// Where the `#` characters from `p` end.
pub open spec fn hashes_end(s: Seq<char>, p: int) -> int
    decreases s.len() - p,
{
    if 0 <= p < s.len() && s[p] == '#' {
        hashes_end(s, p + 1)
    } else {
        p
    }
}

/// `n` characters `#` from `p`.
pub open spec fn hashes_at(s: Seq<char>, p: int, n: int) -> bool {
    0 <= p && p + n <= s.len() && forall|m: int| 0 <= m < n ==> #[trigger] s[p + m] == '#'
}

/// Where the content of a raw string literal with `n` hashes that goes on
/// at `k` ends: the closing quote followed by `n` hashes; a carriage return
/// in it must be followed by a line feed.
pub open spec fn raw_end(s: Seq<char>, k: int, n: int) -> Option<int>
    decreases s.len() - k,
{
    if k < 0 || k >= s.len() {
        None
    } else if s[k] == '"' && hashes_at(s, k + 1, n) {
        Some(k)
    } else if s[k] == '\r' && !(k + 1 < s.len() && s[k + 1] == '\n') {
        None
    } else {
        raw_end(s, k + 1, n)
    }
}

/// The names that cannot be raw identifiers.
pub open spec fn is_reserved_raw(sym: Seq<char>) -> bool {
    sym == "_"@ || sym == "super"@ || sym == "self"@ || sym == "Self"@ || sym == "crate"@
}

/// A raw string literal `r"..."` or `r#"..."#` (up to 255 hashes), with an
/// optional suffix, or a raw identifier `r#name`, whose `r` is at `i`: the
/// token (a raw string by its content taken as it is, a raw identifier by
/// its text with `r#`), and where it ends.
pub open spec fn lex_raw(s: Seq<char>, i: int) -> Result<(TokenView, int), SyntaxError> {
    let q = hashes_end(s, i + 1);
    let n = q - (i + 1);
    if q >= s.len() {
        Err(SyntaxError::UnterminatedString)
    } else if s[q] == '"' && n <= 255 {
        match raw_end(s, q + 1, n) {
            Some(k) => Ok((TokenView::Str(s.subrange(q + 1, k)), suffix_end(s, k + 1 + n))),
            None => Err(SyntaxError::UnterminatedString),
        }
    } else if n == 1 && is_ident_start(s[q]) {
        let e = ident_end(s, q + 1);
        if is_reserved_raw(s.subrange(q, e)) {
            Err(SyntaxError::UnexpectedChar('#'))
        } else {
            Ok((TokenView::Ident("r#"@ + s.subrange(q, e)), e))
        }
    } else {
        Err(SyntaxError::UnexpectedChar('#'))
    }
}

/// The tokens of `s` from `i` on, after `acc`, with `depth` parentheses open.
pub open spec fn lex_from(s: Seq<char>, i: int, depth: nat, acc: Seq<TokenView>) -> Result<Seq<TokenView>, SyntaxError>
    decreases s.len() - i,
{
    if i < 0 || i >= s.len() {
        if depth == 0 {
            Ok(acc)
        } else {
            Err(SyntaxError::UnbalancedParentheses)
        }
    } else {
        let c = s[i];
        if is_space(c) {
            lex_from(s, i + 1, depth, acc)
        } else if c == 'r' && i + 1 < s.len() && (s[i + 1] == '"' || s[i + 1] == '#') {
            match lex_raw(s, i) {
                Ok((tok, e)) => if e <= i || e > s.len() {
                    Err(SyntaxError::UnexpectedEnd)
                } else {
                    lex_from(s, e, depth, acc.push(tok))
                },
                Err(err) => Err(err),
            }
        } else if is_digit(c) {
            let r = radix_at(s, i);
            let start = if r == Radix::Decimal {
                i
            } else {
                i + 2
            };
            let e = digits_end(s, start, radix_base(r));
            let e2 = suffix_end(s, e);
            if e < start || e2 < e || e2 <= i || e2 > s.len() {
                Err(SyntaxError::UnexpectedEnd)
            } else if without_underscores(s.subrange(start, e)).len() == 0 {
                Err(SyntaxError::InvalidNumber)
            } else if e < s.len() && is_digit(s[e]) {
                Err(SyntaxError::InvalidNumber)
            } else if r == Radix::Decimal && e < s.len() && (s[e] == 'e' || s[e] == 'E') {
                Err(SyntaxError::InvalidNumber)
            } else {
                lex_from(s, e2, depth, acc.push(TokenView::Int(r, without_underscores(s.subrange(start, e)))))
            }
        } else if c == '"' {
            match lex_string(s, i + 1, Seq::empty()) {
                Ok((v, e)) => {
                    let e2 = suffix_end(s, e);
                    if e <= i || e2 < e || e2 > s.len() {
                        Err(SyntaxError::UnexpectedEnd)
                    } else {
                        lex_from(s, e2, depth, acc.push(TokenView::Str(v)))
                    }
                },
                Err(err) => Err(err),
            }
        } else if c == '(' {
            lex_from(s, i + 1, depth + 1, acc.push(TokenView::Punct(c)))
        } else if c == ')' {
            if depth == 0 {
                Err(SyntaxError::UnbalancedParentheses)
            } else {
                lex_from(s, i + 1, (depth - 1) as nat, acc.push(TokenView::Punct(c)))
            }
        } else if c == '=' || c == ',' {
            lex_from(s, i + 1, depth, acc.push(TokenView::Punct(c)))
        } else if is_ident_start(c) {
            let e = ident_end(s, i + 1);
            if e <= i || e > s.len() {
                Err(SyntaxError::UnexpectedEnd)
            } else {
                lex_from(s, e, depth, acc.push(TokenView::Ident(s.subrange(i, e))))
            }
        } else {
            Err(SyntaxError::UnexpectedChar(c))
        }
    }
}

/// The tokens of the attribute text.
pub open spec fn lex(s: Seq<char>) -> Result<Seq<TokenView>, SyntaxError> {
    lex_from(s, 0, 0, Seq::empty())
}

proof fn lemma_ident_end(s: Seq<char>, i: int)
    requires
        0 <= i <= s.len(),
    ensures
        i <= ident_end(s, i) <= s.len(),
    decreases s.len() - i,
{
    if i < s.len() && is_ident_continue(s[i]) {
        lemma_ident_end(s, i + 1);
    }
}

proof fn lemma_digits_end(s: Seq<char>, i: int, b: nat)
    requires
        0 <= i <= s.len(),
    ensures
        i <= digits_end(s, i, b) <= s.len(),
    decreases s.len() - i,
{
    if i < s.len() && (char_digit(s[i]) < b || s[i] == '_') {
        lemma_digits_end(s, i + 1, b);
    }
}

proof fn lemma_lex_string_end(s: Seq<char>, i: int, acc: Seq<char>)
    ensures
        lex_string(s, i, acc) matches Ok((v, e)) ==> i < e <= s.len(),
    decreases s.len() - i,
{
    if 0 <= i < s.len() && s[i] != '"' {
        if s[i] == '\r' {
            if i + 1 < s.len() && s[i + 1] == '\n' {
                lemma_lex_string_end(s, i + 2, acc.push('\n'));
            }
        } else if s[i] == '\\' {
            if i + 1 < s.len() {
                if s[i + 1] == 'x' {
                    if let Some(c) = hex_escape(s, i + 2) {
                        lemma_lex_string_end(s, i + 4, acc.push(c));
                    }
                } else if s[i + 1] == 'u' {
                    if let Some((c, e)) = unicode_escape(s, i + 2) {
                        if i < e <= s.len() {
                            lemma_lex_string_end(s, e, acc.push(c));
                        }
                    }
                } else if s[i + 1] == '\n' || s[i + 1] == '\r' {
                    if let Some(e) = skip_line_break(s, i + 2, s[i + 1] == '\r') {
                        if i < e <= s.len() {
                            lemma_lex_string_end(s, e, acc);
                        }
                    }
                } else if let Some(c) = escaped(s[i + 1]) {
                    lemma_lex_string_end(s, i + 2, acc.push(c));
                }
            }
        } else {
            lemma_lex_string_end(s, i + 1, acc.push(s[i]));
        }
    }
}

/// std's `char::from_u32`: the character with this code, `None` for a
/// surrogate or a number above `0x10FFFF`, as its documentation says.
#[verifier::external_body]
fn char_from_code(v: u32) -> (r: Option<char>)
    ensures
        r is Some <==> is_char_code(v as nat),
        r matches Some(c) ==> c == code_char(v as nat),
{
    char::from_u32(v)
}

/// 16 to the power `n`.
pub open spec fn pow16(n: nat) -> nat
    decreases n,
{
    if n == 0 {
        1
    } else {
        16 * pow16((n - 1) as nat)
    }
}

/// See `unicode_escape`.
fn scan_unicode(s: &Vec<char>, j: usize) -> (r: Option<(char, usize)>)
    ensures
        match r {
            Some((c, e)) => unicode_escape(s@, j as int) == Some((c, e as int)) && j < e <= s@.len(),
            None => unicode_escape(s@, j as int) is None,
        },
{
    if j >= s.len() || s[j] != '{' {
        return None;
    }
    let mut k: usize = j + 1;
    let mut len: u32 = 0;
    let mut value: u32 = 0;
    proof {
        reveal_with_fuel(pow16, 7);
    }
    while k < s.len()
        invariant
            j < k <= s@.len(),
            s@[j as int] == '{',
            len <= 6,
            value < pow16(len as nat),
            pow16(6) == 16777216,
            unicode_digits(s@, j + 1, 0, 0) == unicode_digits(s@, k as int, len as nat, value as nat),
        decreases s@.len() - k,
    {
        let c = s[k];
        let d = digit_of(c);
        if d < 16 {
            if len == 6 {
                return None;
            }
            proof {
                assert(pow16((len + 1) as nat) == 16 * pow16(len as nat));
                assert(value * 16 + d < pow16((len + 1) as nat)) by (nonlinear_arith)
                    requires
                        value < pow16(len as nat),
                        d < 16,
                        pow16((len + 1) as nat) == 16 * pow16(len as nat),
                ;
                if len < 6 {
                    assert(pow16((len + 1) as nat) <= pow16(6)) by {
                        reveal_with_fuel(pow16, 7);
                    }
                }
            }
            value = value * 16 + d;
            len = len + 1;
        } else if c == '_' && len > 0 {
        } else if c == '}' && len > 0 {
            assert(unicode_digits(s@, k as int, len as nat, value as nat) == Some((value as nat, (k + 1) as int)));
            assert(s@[j as int] == '{');
            return match char_from_code(value) {
                Some(ch) => {
                    Some((ch, k + 1))
                },
                None => None,
            };
        } else {
            return None;
        }
        k = k + 1;
    }
    None
}

/// See `skip_line_break`.
fn scan_line_break(s: &Vec<char>, p: usize, after_cr: bool) -> (r: Option<usize>)
    ensures
        match r {
            Some(e) => skip_line_break(s@, p as int, after_cr) == Some(e as int) && p <= e < s@.len(),
            None => skip_line_break(s@, p as int, after_cr) is None,
        },
{
    let mut q = p;
    let mut cr = after_cr;
    while q < s.len()
        invariant
            p <= q,
            skip_line_break(s@, p as int, after_cr) == skip_line_break(s@, q as int, cr),
        decreases s@.len() - q,
    {
        let c = s[q];
        if cr {
            if c != '\n' {
                return None;
            }
            cr = false;
        } else if c == ' ' || c == '\t' || c == '\n' || c == '\r' {
            cr = c == '\r';
        } else {
            return Some(q);
        }
        q = q + 1;
    }
    None
}

/// Scans a string literal whose opening quote is just before `start`.
fn scan_string(s: &Vec<char>, start: usize) -> (r: Result<(String, usize), SyntaxError>)
    requires
        start <= s@.len(),
    ensures
        match r {
            Ok((v, e)) => lex_string(s@, start as int, Seq::empty()) == Ok::<(Seq<char>, int), SyntaxError>((v@, e as int)),
            Err(err) => lex_string(s@, start as int, Seq::empty()) == Err::<(Seq<char>, int), SyntaxError>(err),
        },
{
    let mut acc: Vec<char> = Vec::new();
    let mut i: usize = start;
    while i < s.len()
        invariant
            start <= i <= s@.len(),
            lex_string(s@, start as int, Seq::empty()) == lex_string(s@, i as int, acc@),
        decreases s@.len() - i,
    {
        let c = s[i];
        if c == '"' {
            return Ok((string_from_chars(&acc), i + 1));
        } else if c == '\r' {
            if i + 1 < s.len() && s[i + 1] == '\n' {
                acc.push('\n');
                i = i + 2;
            } else {
                return Err(SyntaxError::BareCarriageReturn);
            }
        } else if c == '\\' {
            if i + 1 >= s.len() {
                return Err(SyntaxError::UnterminatedString);
            }
            let d = s[i + 1];
            if d == 'x' {
                if s.len() - i > 3 && digit_of(s[i + 2]) < 8 && digit_of(s[i + 3]) < 16 {
                    let v = digit_of(s[i + 2]) * 16 + digit_of(s[i + 3]);
                    match char_from_code(v) {
                        Some(ch) => {
                            acc.push(ch);
                            i = i + 4;
                        },
                        None => {
                            return Err(SyntaxError::InvalidEscape('x'));
                        },
                    }
                } else {
                    return Err(SyntaxError::InvalidEscape('x'));
                }
            } else if d == 'u' {
                match scan_unicode(s, i + 2) {
                    Some((ch, e)) => {
                        acc.push(ch);
                        i = e;
                    },
                    None => {
                        return Err(SyntaxError::InvalidEscape('u'));
                    },
                }
            } else if d == '\n' || d == '\r' {
                match scan_line_break(s, i + 2, d == '\r') {
                    Some(e) => {
                        i = e;
                    },
                    None => {
                        return Err(SyntaxError::UnterminatedString);
                    },
                }
            } else {
                let e = if d == 'n' {
                    '\n'
                } else if d == 'r' {
                    '\r'
                } else if d == 't' {
                    '\t'
                } else if d == '0' {
                    '\0'
                } else if d == '\\' {
                    '\\'
                } else if d == '"' {
                    '"'
                } else if d == '\'' {
                    '\''
                } else {
                    return Err(SyntaxError::UnknownEscape(d));
                };
                acc.push(e);
                i = i + 2;
            }
        } else {
            acc.push(c);
            i = i + 1;
        }
    }
    Err(SyntaxError::UnterminatedString)
}

/// See `char_digit`.
fn digit_of(c: char) -> (r: u32)
    ensures
        r == char_digit(c),
{
    if '0' <= c && c <= '9' {
        c as u32 - '0' as u32
    } else if 'a' <= c && c <= 'f' {
        c as u32 - 'a' as u32 + 10
    } else if 'A' <= c && c <= 'F' {
        c as u32 - 'A' as u32 + 10
    } else {
        16
    }
}

/// See `hashes_at`.
fn check_hashes(s: &Vec<char>, p: usize, n: usize) -> (r: bool)
    ensures
        r == hashes_at(s@, p as int, n as int),
{
    if p > s.len() || s.len() - p < n {
        return false;
    }
    let mut m: usize = 0;
    while m < n
        invariant
            m <= n,
            p + n <= s.len(),
            forall|x: int| 0 <= x < m ==> #[trigger] s@[p + x] == '#',
        decreases n - m,
    {
        assert(p + m < s@.len());
        if s[p + m] != '#' {
            return false;
        }
        m = m + 1;
    }
    true
}

/// unicode-ident's `is_xid_start`: whether the character has the Unicode
/// property XID_Start.  Its source answers ASCII characters from a bit mask
/// that holds exactly the letters; other characters are named only.
#[verifier::external_body]
fn xid_start_char(c: char) -> (r: bool)
    ensures
        r == xid_start(c),
        (c as u32) < 128 ==> (r <==> (('a' <= c && c <= 'z') || ('A' <= c && c <= 'Z'))),
{
    unicode_ident::is_xid_start(c)
}

/// unicode-ident's `is_xid_continue`: whether the character has the Unicode
/// property XID_Continue.  Its source answers ASCII characters from a bit
/// mask that holds exactly the letters, the digits and `_`; other characters
/// are named only.
#[verifier::external_body]
fn xid_continue_char(c: char) -> (r: bool)
    ensures
        r == xid_continue(c),
        (c as u32) < 128 ==> (r <==> (('a' <= c && c <= 'z') || ('A' <= c && c <= 'Z') || ('0' <= c && c <= '9') || c == '_')),
{
    unicode_ident::is_xid_continue(c)
}

/// See `ident_end`.
fn scan_ident_end(s: &Vec<char>, from: usize) -> (e: usize)
    requires
        from <= s.len(),
    ensures
        e == ident_end(s@, from as int),
        from <= e <= s@.len(),
{
    proof {
        lemma_ident_end(s@, from as int);
    }
    let mut e = from;
    while e < s.len() && xid_continue_char(s[e])
        invariant
            from <= e <= s@.len(),
            ident_end(s@, from as int) == ident_end(s@, e as int),
        decreases s@.len() - e,
    {
        e = e + 1;
    }
    e
}

/// See `suffix_end`.
fn scan_suffix_end(s: &Vec<char>, e: usize) -> (e2: usize)
    requires
        e <= s.len(),
    ensures
        e2 == suffix_end(s@, e as int),
        e <= e2 <= s@.len(),
{
    if e < s.len() && (s[e] == '_' || xid_start_char(s[e])) {
        scan_ident_end(s, e + 1)
    } else {
        e
    }
}

/// The characters `s[from..to]`.
fn chars_between(s: &Vec<char>, from: usize, to: usize) -> (v: Vec<char>)
    requires
        from <= to <= s.len(),
    ensures
        v@ == s@.subrange(from as int, to as int),
{
    let mut v: Vec<char> = Vec::new();
    let mut k = from;
    while k < to
        invariant
            from <= k <= to <= s@.len(),
            v@ == s@.subrange(from as int, k as int),
        decreases to - k,
    {
        v.push(s[k]);
        k = k + 1;
    }
    v
}

/// See `is_reserved_raw`.
fn reserved_raw(sym: &str) -> (r: bool)
    ensures
        r == is_reserved_raw(sym@),
{
    str_eq(sym, "_") || str_eq(sym, "super") || str_eq(sym, "self") || str_eq(sym, "Self") || str_eq(sym, "crate")
}

/// See `lex_raw`.
fn scan_raw(s: &Vec<char>, i: usize) -> (r: Result<(Token, usize), SyntaxError>)
    requires
        i < s.len(),
    ensures
        match r {
            Ok((t, e)) => lex_raw(s@, i as int) == Ok::<(TokenView, int), SyntaxError>((t@, e as int)) && i < e <= s@.len(),
            Err(err) => lex_raw(s@, i as int) == Err::<(TokenView, int), SyntaxError>(err),
        },
{
    let mut q = i + 1;
    while q < s.len() && s[q] == '#'
        invariant
            i + 1 <= q <= s@.len(),
            hashes_end(s@, (i + 1) as int) == hashes_end(s@, q as int),
        decreases s@.len() - q,
    {
        q = q + 1;
    }
    assert(hashes_end(s@, q as int) == q as int);
    if q >= s.len() {
        return Err(SyntaxError::UnterminatedString);
    }
    let n = q - (i + 1);
    if s[q] != '"' || n > 255 {
        if n == 1 && (s[q] == '_' || xid_start_char(s[q])) {
            let e = scan_ident_end(s, q + 1);
            let symv = chars_between(s, q, e);
            let sym = string_from_chars(&symv);
            if reserved_raw(sym.as_str()) {
                return Err(SyntaxError::UnexpectedChar('#'));
            }
            let mut text: Vec<char> = Vec::new();
            text.push('r');
            text.push('#');
            let mut k = q;
            while k < e
                invariant
                    q <= k <= e <= s@.len(),
                    text@ == seq!['r', '#'] + s@.subrange(q as int, k as int),
                decreases e - k,
            {
                text.push(s[k]);
                k = k + 1;
            }
            proof {
                reveal_strlit("r#");
                assert("r#"@ =~= seq!['r', '#']);
            }
            return Ok((Token::Ident(string_from_chars(&text)), e));
        }
        return Err(SyntaxError::UnexpectedChar('#'));
    }
    let mut k = q + 1;
    while k < s.len()
        invariant
            q + 1 <= k <= s@.len(),
            i < q < s@.len(),
            s@[q as int] == '"',
            n <= 255,
            n == q - (i + 1),
            hashes_end(s@, (i + 1) as int) == q as int,
            raw_end(s@, (q + 1) as int, n as int) == raw_end(s@, k as int, n as int),
        decreases s@.len() - k,
    {
        if s[k] == '"' && check_hashes(s, k + 1, n) {
            assert(raw_end(s@, k as int, n as int) == Some(k as int));
            let content = chars_between(s, q + 1, k);
            let e = scan_suffix_end(s, k + 1 + n);
            return Ok((Token::Str(string_from_chars(&content)), e));
        }
        if s[k] == '\r' && !(k + 1 < s.len() && s[k + 1] == '\n') {
            assert(raw_end(s@, k as int, n as int) is None);
            return Err(SyntaxError::UnterminatedString);
        }
        k = k + 1;
    }
    Err(SyntaxError::UnterminatedString)
}

/// The tokens of the attribute text.
pub fn tokenize(input: &str) -> (r: Result<Vec<Token>, SyntaxError>)
    ensures
        match r {
            Ok(ts) => lex(input@) == Ok::<Seq<TokenView>, SyntaxError>(tokens_view(ts@)),
            Err(e) => lex(input@) == Err::<Seq<TokenView>, SyntaxError>(e),
        },
{
    let s = chars_of(input);
    let mut toks: Vec<Token> = Vec::new();
    let mut i: usize = 0;
    let mut depth: usize = 0;
    assert(tokens_view(toks@) == Seq::<TokenView>::empty());
    while i < s.len()
        invariant
            i <= s@.len(),
            s@ == input@,
            depth <= i,
            lex(s@) == lex_from(s@, i as int, depth as nat, tokens_view(toks@)),
        decreases s@.len() - i,
    {
        let c = s[i];
        let ghost tv = tokens_view(toks@);
        if c == ' ' || c == '\t' || c == '\n' || c == '\r' {
            i = i + 1;
        } else if c == 'r' && i + 1 < s.len() && (s[i + 1] == '"' || s[i + 1] == '#') {
            match scan_raw(&s, i) {
                Ok((t, e)) => {
                    let ghost t_view = t@;
                    toks.push(t);
                    assert(tokens_view(toks@) == tv.push(t_view));
                    i = e;
                },
                Err(err) => {
                    return Err(err);
                },
            }
        } else if '0' <= c && c <= '9' {
            let r: Radix = if c == '0' && i + 1 < s.len() && s[i + 1] == 'x' {
                Radix::Hex
            } else if c == '0' && i + 1 < s.len() && s[i + 1] == 'o' {
                Radix::Octal
            } else if c == '0' && i + 1 < s.len() && s[i + 1] == 'b' {
                Radix::Binary
            } else {
                Radix::Decimal
            };
            assert(r == radix_at(s@, i as int));
            let base: u32 = match r {
                Radix::Binary => 2,
                Radix::Octal => 8,
                Radix::Decimal => 10,
                Radix::Hex => 16,
            };
            let start: usize = if base == 10 {
                i
            } else {
                i + 2
            };
            proof {
                lemma_digits_end(s@, start as int, base as nat);
                if base == 10 {
                    lemma_digits_end(s@, (i + 1) as int, base as nat);
                }
            }
            let mut e = start;
            while e < s.len() && (digit_of(s[e]) < base || s[e] == '_')
                invariant
                    start <= e <= s@.len(),
                    digits_end(s@, start as int, base as nat) == digits_end(s@, e as int, base as nat),
                decreases s@.len() - e,
            {
                e = e + 1;
            }
            let mut digits: Vec<char> = Vec::new();
            let mut k = start;
            while k < e
                invariant
                    start <= k <= e <= s@.len(),
                    digits@ == without_underscores(s@.subrange(start as int, k as int)),
                decreases e - k,
            {
                assert(s@.subrange(start as int, k + 1).drop_last() == s@.subrange(start as int, k as int));
                if s[k] != '_' {
                    digits.push(s[k]);
                }
                k = k + 1;
            }
            let e2 = scan_suffix_end(&s, e);
            assert(e2 == suffix_end(s@, e as int));
            if digits.len() == 0 {
                return Err(SyntaxError::InvalidNumber);
            }
            if e < s.len() && '0' <= s[e] && s[e] <= '9' {
                return Err(SyntaxError::InvalidNumber);
            }
            if base == 10 && e < s.len() && (s[e] == 'e' || s[e] == 'E') {
                return Err(SyntaxError::InvalidNumber);
            }
            toks.push(Token::Int(r, string_from_chars(&digits)));
            assert(tokens_view(toks@) == tv.push(TokenView::Int(r, without_underscores(s@.subrange(start as int, e as int)))));
            i = e2;
        } else if c == '"' {
            proof {
                lemma_lex_string_end(s@, (i + 1) as int, Seq::empty());
            }
            match scan_string(&s, i + 1) {
                Ok((v, e)) => {
                    toks.push(Token::Str(v));
                    assert(tokens_view(toks@) == tv.push(TokenView::Str(v@)));
                    i = scan_suffix_end(&s, e);
                },
                Err(err) => {
                    return Err(err);
                },
            }
        } else if c == '(' {
            toks.push(Token::Punct(c));
            assert(tokens_view(toks@) == tv.push(TokenView::Punct(c)));
            depth = depth + 1;
            i = i + 1;
        } else if c == ')' {
            if depth == 0 {
                return Err(SyntaxError::UnbalancedParentheses);
            }
            toks.push(Token::Punct(c));
            assert(tokens_view(toks@) == tv.push(TokenView::Punct(c)));
            depth = depth - 1;
            i = i + 1;
        } else if c == '=' || c == ',' {
            toks.push(Token::Punct(c));
            assert(tokens_view(toks@) == tv.push(TokenView::Punct(c)));
            i = i + 1;
        } else if c == '_' || xid_start_char(c) {
            let e = scan_ident_end(&s, i + 1);
            let name = chars_between(&s, i, e);
            toks.push(Token::Ident(string_from_chars(&name)));
            assert(tokens_view(toks@) == tv.push(TokenView::Ident(s@.subrange(i as int, e as int))));
            i = e;
        } else {
            return Err(SyntaxError::UnexpectedChar(c));
        }
    }
    if depth == 0 {
        Ok(toks)
    } else {
        Err(SyntaxError::UnbalancedParentheses)
    }
}

} // verus!
