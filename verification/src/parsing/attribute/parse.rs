//! The grammar of the attribute: a comma-separated list of options, an
//! optional trailing comma.
//!
//! - `debug`, `root`, `derive_debug_for_parameters`: a flag, alone (true) or
//!   as `name = true` / `name = false`;
//! - `tasks`: tasks mode, alone (default options) or as `tasks(...)` with a
//!   comma-separated list of `max_groupsize = <int>`, `max_depth = <int>`,
//!   `separator = "<string>"` and the flag `use_colors`.
//!
//! A name is an identifier that is no Rust keyword: a keyword in its place is
//! a syntax error, while a raw identifier such as `r#debug` is a name of its
//! own, which no option has.
use vstd::prelude::*;
use crate::text::{chars_of, str_eq, string_from_chars};
use crate::parsing::attribute::lexer::{char_digit, lex, radix_base, tokenize, tokens_view, Radix, Token, TokenView};
use crate::parsing::attribute::models::{
    default_tasks_config, default_tusks_attr, error_message, syntax_message, AttrError, AttrErrorView,
    SyntaxError, TasksConfig, TasksConfigView, TusksAttr, TusksAttrView,
};

verus! {

/// The number that digits of base `b` denote.
pub open spec fn digits_value(d: Seq<char>, b: nat) -> nat
    decreases d.len(),
{
    if d.len() == 0 {
        0
    } else {
        digits_value(d.drop_last(), b) * b + char_digit(d.last())
    }
}

/// Whether token `i`, before `end`, is the punctuation `c`.
pub open spec fn is_punct_at(t: Seq<TokenView>, i: int, end: int, c: char) -> bool {
    0 <= i < end && i < t.len() && t[i] == TokenView::Punct(c)
}

/// A flag's value after its name at `i`: `= true` or `= false`, or true
/// when no `=` follows; and where the flag ends.
pub open spec fn spec_bool_flag(t: Seq<TokenView>, i: int, end: int) -> Result<(bool, int), AttrErrorView> {
    if is_punct_at(t, i, end, '=') {
        if i + 1 < end && i + 1 < t.len() {
            match t[i + 1] {
                TokenView::Ident(n) => if n == "true"@ {
                    Ok((true, i + 2))
                } else if n == "false"@ {
                    Ok((false, i + 2))
                } else {
                    Err(AttrErrorView::Syntax(SyntaxError::ExpectedBool))
                },
                _ => Err(AttrErrorView::Syntax(SyntaxError::ExpectedBool)),
            }
        } else {
            Err(AttrErrorView::Syntax(SyntaxError::ExpectedBool))
        }
    } else {
        Ok((true, i))
    }
}

/// `= <integer>` at `i`: the integer as a `usize`, and where it ends.
pub open spec fn spec_usize_value(t: Seq<TokenView>, i: int, end: int) -> Result<(usize, int), AttrErrorView> {
    if !is_punct_at(t, i, end, '=') {
        Err(AttrErrorView::Syntax(SyntaxError::ExpectedEq))
    } else if i + 1 < end && i + 1 < t.len() {
        match t[i + 1] {
            TokenView::Int(r, d) => if digits_value(d, radix_base(r)) <= usize::MAX {
                Ok((digits_value(d, radix_base(r)) as usize, i + 2))
            } else {
                Err(AttrErrorView::Syntax(SyntaxError::NumberTooLarge))
            },
            _ => Err(AttrErrorView::Syntax(SyntaxError::ExpectedInt)),
        }
    } else {
        Err(AttrErrorView::Syntax(SyntaxError::ExpectedInt))
    }
}

/// `= "<string>"` at `i`: the string, and where it ends.
pub open spec fn spec_string_value(t: Seq<TokenView>, i: int, end: int) -> Result<(Seq<char>, int), AttrErrorView> {
    if !is_punct_at(t, i, end, '=') {
        Err(AttrErrorView::Syntax(SyntaxError::ExpectedEq))
    } else if i + 1 < end && i + 1 < t.len() {
        match t[i + 1] {
            TokenView::Str(v) => Ok((v, i + 2)),
            _ => Err(AttrErrorView::Syntax(SyntaxError::ExpectedString)),
        }
    } else {
        Err(AttrErrorView::Syntax(SyntaxError::ExpectedString))
    }
}

/// Past an option ending at `j`: the end of the list, or a comma.
pub open spec fn spec_trailing_comma(t: Seq<TokenView>, j: int, end: int) -> Result<int, AttrErrorView> {
    if j >= end {
        Ok(j)
    } else if is_punct_at(t, j, end, ',') {
        Ok(j + 1)
    } else {
        Err(AttrErrorView::Syntax(SyntaxError::ExpectedComma))
    }
}

/// One tasks option at `i`, named `name`: the options with it set, and
/// where it ends.
pub open spec fn spec_config_option(t: Seq<TokenView>, i: int, end: int, name: Seq<char>, acc: TasksConfigView) -> Result<(TasksConfigView, int), AttrErrorView> {
    if name == "max_groupsize"@ {
        match spec_usize_value(t, i + 1, end) {
            Ok((v, j)) => Ok((TasksConfigView { max_groupsize: v, ..acc }, j)),
            Err(e) => Err(e),
        }
    } else if name == "max_depth"@ {
        match spec_usize_value(t, i + 1, end) {
            Ok((v, j)) => Ok((TasksConfigView { max_depth: v, ..acc }, j)),
            Err(e) => Err(e),
        }
    } else if name == "separator"@ {
        match spec_string_value(t, i + 1, end) {
            Ok((v, j)) => Ok((TasksConfigView { separator: v, ..acc }, j)),
            Err(e) => Err(e),
        }
    } else if name == "use_colors"@ {
        match spec_bool_flag(t, i + 1, end) {
            Ok((b, j)) => Ok((TasksConfigView { use_colors: b, ..acc }, j)),
            Err(e) => Err(e),
        }
    } else {
        Err(AttrErrorView::UnknownParameter(name))
    }
}

/// The words that cannot stand as an option name: `_` and Rust's keywords,
/// strict and reserved (`r#` makes any of them a name).
pub open spec fn is_keyword(name: Seq<char>) -> bool {
    name == "_"@ ||
    name == "abstract"@ ||
    name == "as"@ ||
    name == "async"@ ||
    name == "await"@ ||
    name == "become"@ ||
    name == "box"@ ||
    name == "break"@ ||
    name == "const"@ ||
    name == "continue"@ ||
    name == "crate"@ ||
    name == "do"@ ||
    name == "dyn"@ ||
    name == "else"@ ||
    name == "enum"@ ||
    name == "extern"@ ||
    name == "false"@ ||
    name == "final"@ ||
    name == "fn"@ ||
    name == "for"@ ||
    name == "if"@ ||
    name == "impl"@ ||
    name == "in"@ ||
    name == "let"@ ||
    name == "loop"@ ||
    name == "macro"@ ||
    name == "match"@ ||
    name == "mod"@ ||
    name == "move"@ ||
    name == "mut"@ ||
    name == "override"@ ||
    name == "priv"@ ||
    name == "pub"@ ||
    name == "ref"@ ||
    name == "return"@ ||
    name == "Self"@ ||
    name == "self"@ ||
    name == "static"@ ||
    name == "struct"@ ||
    name == "super"@ ||
    name == "trait"@ ||
    name == "true"@ ||
    name == "try"@ ||
    name == "type"@ ||
    name == "typeof"@ ||
    name == "unsafe"@ ||
    name == "unsized"@ ||
    name == "use"@ ||
    name == "virtual"@ ||
    name == "where"@ ||
    name == "while"@ ||
    name == "yield"@
}

/// The tasks options from `i` to `end`, applied to `acc` in order.
pub open spec fn spec_config_items(t: Seq<TokenView>, i: int, end: int, acc: TasksConfigView) -> Result<TasksConfigView, AttrErrorView>
    decreases end - i,
{
    if i >= end || i < 0 || i >= t.len() {
        if i >= end {
            Ok(acc)
        } else {
            Err(AttrErrorView::Syntax(SyntaxError::UnexpectedEnd))
        }
    } else {
        match t[i] {
            TokenView::Ident(name) => if is_keyword(name) {
                Err(AttrErrorView::Syntax(SyntaxError::ExpectedIdent))
            } else {
                match spec_config_option(t, i, end, name, acc) {
                Ok((a2, j)) => match spec_trailing_comma(t, j, end) {
                    Ok(k) => if k <= i || k > end {
                        Err(AttrErrorView::Syntax(SyntaxError::UnexpectedEnd))
                    } else {
                        spec_config_items(t, k, end, a2)
                    },
                    Err(e) => Err(e),
                },
                Err(e) => Err(e),
                }
            },
            _ => Err(AttrErrorView::Syntax(SyntaxError::ExpectedIdent)),
        }
    }
}

/// The position of the `)` that closes the parenthesis open before `i`,
/// `depth` further parentheses being open.
pub open spec fn matching_close(t: Seq<TokenView>, i: int, depth: nat) -> Option<int>
    decreases t.len() - i,
{
    if i < 0 || i >= t.len() {
        None
    } else if t[i] == TokenView::Punct('(') {
        matching_close(t, i + 1, depth + 1)
    } else if t[i] == TokenView::Punct(')') {
        if depth == 0 {
            Some(i)
        } else {
            matching_close(t, i + 1, (depth - 1) as nat)
        }
    } else {
        matching_close(t, i + 1, depth)
    }
}

/// `tasks` at `i`, followed or not by its options in parentheses: the
/// options, and where they end.
pub open spec fn spec_tasks_option(t: Seq<TokenView>, i: int) -> Result<(TasksConfigView, int), AttrErrorView> {
    if is_punct_at(t, i + 1, t.len() as int, '(') {
        match matching_close(t, i + 2, 0) {
            Some(c) => match spec_config_items(t, i + 2, c, default_tasks_config()) {
                Ok(cfg) => Ok((cfg, c + 1)),
                Err(e) => Err(e),
            },
            None => Err(AttrErrorView::Syntax(SyntaxError::UnbalancedParentheses)),
        }
    } else {
        Ok((default_tasks_config(), i + 1))
    }
}

/// One module option at `i`, named `name`: the options with it set, and
/// where it ends.
pub open spec fn spec_attr_option(t: Seq<TokenView>, i: int, name: Seq<char>, acc: TusksAttrView) -> Result<(TusksAttrView, int), AttrErrorView> {
    let end = t.len() as int;
    if name == "debug"@ {
        match spec_bool_flag(t, i + 1, end) {
            Ok((b, j)) => Ok((TusksAttrView { debug: b, ..acc }, j)),
            Err(e) => Err(e),
        }
    } else if name == "root"@ {
        match spec_bool_flag(t, i + 1, end) {
            Ok((b, j)) => Ok((TusksAttrView { root: b, ..acc }, j)),
            Err(e) => Err(e),
        }
    } else if name == "derive_debug_for_parameters"@ {
        match spec_bool_flag(t, i + 1, end) {
            Ok((b, j)) => Ok((TusksAttrView { derive_debug_for_parameters: b, ..acc }, j)),
            Err(e) => Err(e),
        }
    } else if name == "tasks"@ {
        match spec_tasks_option(t, i) {
            Ok((cfg, j)) => Ok((TusksAttrView { tasks: Some(cfg), ..acc }, j)),
            Err(e) => Err(e),
        }
    } else {
        Err(AttrErrorView::UnknownAttribute(name))
    }
}

/// The module options from `i` on, applied to `acc` in order.
pub open spec fn spec_attr_items(t: Seq<TokenView>, i: int, acc: TusksAttrView) -> Result<TusksAttrView, AttrErrorView>
    decreases t.len() - i,
{
    if i >= t.len() || i < 0 {
        if i >= t.len() {
            Ok(acc)
        } else {
            Err(AttrErrorView::Syntax(SyntaxError::UnexpectedEnd))
        }
    } else {
        match t[i] {
            TokenView::Ident(name) => if is_keyword(name) {
                Err(AttrErrorView::Syntax(SyntaxError::ExpectedIdent))
            } else {
                match spec_attr_option(t, i, name, acc) {
                Ok((a2, j)) => match spec_trailing_comma(t, j, t.len() as int) {
                    Ok(k) => if k <= i || k > t.len() {
                        Err(AttrErrorView::Syntax(SyntaxError::UnexpectedEnd))
                    } else {
                        spec_attr_items(t, k, a2)
                    },
                    Err(e) => Err(e),
                },
                Err(e) => Err(e),
                }
            },
            _ => Err(AttrErrorView::Syntax(SyntaxError::ExpectedIdent)),
        }
    }
}

/// The module options that the attribute text gives.
pub open spec fn spec_parse_tusks_attr(s: Seq<char>) -> Result<TusksAttrView, AttrErrorView> {
    match lex(s) {
        Ok(t) => spec_attr_items(t, 0, default_tusks_attr()),
        Err(e) => Err(AttrErrorView::Syntax(e)),
    }
}

/// The tasks options that the text inside `tasks(...)` gives.
pub open spec fn spec_parse_tasks_config(s: Seq<char>) -> Result<TasksConfigView, AttrErrorView> {
    match lex(s) {
        Ok(t) => spec_config_items(t, 0, t.len() as int, default_tasks_config()),
        Err(e) => Err(AttrErrorView::Syntax(e)),
    }
}

/// The value of digits never falls as digits are added.
proof fn lemma_digits_value_prefix(d: Seq<char>, b: nat, k: int)
    requires
        0 <= k <= d.len(),
        b >= 1,
    ensures
        digits_value(d.take(k), b) <= digits_value(d, b),
    decreases d.len() - k,
{
    if k < d.len() {
        assert(d.take(k + 1).drop_last() == d.take(k));
        let v = digits_value(d.take(k), b);
        assert(v * b >= v) by (nonlinear_arith)
            requires
                b >= 1,
        ;
        lemma_digits_value_prefix(d, b, k + 1);
    } else {
        assert(d.take(k) == d);
    }
}

/// The number that digits in a radix denote, or `None` when it does not fit
/// in a `usize`.
fn parse_digits(d: &str, r: Radix) -> (res: Option<usize>)
    ensures
        res is Some <==> digits_value(d@, radix_base(r)) <= usize::MAX,
        res matches Some(v) ==> v == digits_value(d@, radix_base(r)),
{
    let base: usize = match r {
        Radix::Binary => 2,
        Radix::Octal => 8,
        Radix::Decimal => 10,
        Radix::Hex => 16,
    };
    let cs = chars_of(d);
    let mut v: usize = 0;
    let mut k: usize = 0;
    while k < cs.len()
        invariant
            k <= cs@.len(),
            cs@ == d@,
            base == radix_base(r),
            v == digits_value(cs@.take(k as int), base as nat),
        decreases cs@.len() - k,
    {
        let c = cs[k];
        let dv: usize = if '0' <= c && c <= '9' {
            (c as u32 - '0' as u32) as usize
        } else if 'a' <= c && c <= 'f' {
            (c as u32 - 'a' as u32 + 10) as usize
        } else if 'A' <= c && c <= 'F' {
            (c as u32 - 'A' as u32 + 10) as usize
        } else {
            16
        };
        assert(cs@.take(k + 1).drop_last() == cs@.take(k as int));
        assert(cs@.take(k + 1).last() == c);
        assert(dv == char_digit(c));
        match v.checked_mul(base) {
            Some(m) => match m.checked_add(dv) {
                Some(n) => {
                    v = n;
                },
                None => {
                    proof {
                        lemma_digits_value_prefix(cs@, base as nat, k + 1);
                    }
                    return None;
                },
            },
            None => {
                proof {
                    lemma_digits_value_prefix(cs@, base as nat, k + 1);
                    assert(digits_value(cs@.take(k + 1), base as nat) >= v * base);
                }
                return None;
            },
        }
        k = k + 1;
    }
    assert(cs@.take(cs@.len() as int) == cs@);
    Some(v)
}

/// Whether token `i` is the punctuation `c`.
fn punct_at(t: &Vec<Token>, i: usize, end: usize, c: char) -> (r: bool)
    requires
        end <= t@.len(),
    ensures
        r == is_punct_at(tokens_view(t@), i as int, end as int, c),
{
    if i < end {
        match &t[i] {
            Token::Punct(p) => *p == c,
            _ => false,
        }
    } else {
        false
    }
}

fn syntax(e: SyntaxError) -> (r: AttrError)
    ensures
        r@ == AttrErrorView::Syntax(e),
{
    AttrError::Syntax(e)
}

/// See `spec_bool_flag`.
fn parse_bool_flag(t: &Vec<Token>, i: usize, end: usize) -> (r: Result<(bool, usize), AttrError>)
    requires
        i <= end <= t@.len(),
    ensures
        match r {
            Ok((b, j)) => spec_bool_flag(tokens_view(t@), i as int, end as int) == Ok::<(bool, int), AttrErrorView>((b, j as int)),
            Err(e) => spec_bool_flag(tokens_view(t@), i as int, end as int) == Err::<(bool, int), AttrErrorView>(e@),
        },
{
    if punct_at(t, i, end, '=') {
        if i + 1 < end {
            match &t[i + 1] {
                Token::Ident(n) => {
                    if str_eq(n.as_str(), "true") {
                        Ok((true, i + 2))
                    } else if str_eq(n.as_str(), "false") {
                        Ok((false, i + 2))
                    } else {
                        Err(syntax(SyntaxError::ExpectedBool))
                    }
                },
                _ => Err(syntax(SyntaxError::ExpectedBool)),
            }
        } else {
            Err(syntax(SyntaxError::ExpectedBool))
        }
    } else {
        Ok((true, i))
    }
}

/// See `spec_usize_value`.
fn parse_usize(t: &Vec<Token>, i: usize, end: usize) -> (r: Result<(usize, usize), AttrError>)
    requires
        i <= end <= t@.len(),
    ensures
        match r {
            Ok((v, j)) => spec_usize_value(tokens_view(t@), i as int, end as int) == Ok::<(usize, int), AttrErrorView>((v, j as int)),
            Err(e) => spec_usize_value(tokens_view(t@), i as int, end as int) == Err::<(usize, int), AttrErrorView>(e@),
        },
{
    if !punct_at(t, i, end, '=') {
        return Err(syntax(SyntaxError::ExpectedEq));
    }
    if i + 1 < end {
        match &t[i + 1] {
            Token::Int(r, d) => match parse_digits(d.as_str(), *r) {
                Some(v) => Ok((v, i + 2)),
                None => Err(syntax(SyntaxError::NumberTooLarge)),
            },
            _ => Err(syntax(SyntaxError::ExpectedInt)),
        }
    } else {
        Err(syntax(SyntaxError::ExpectedInt))
    }
}

/// See `spec_string_value`.
fn parse_string(t: &Vec<Token>, i: usize, end: usize) -> (r: Result<(String, usize), AttrError>)
    requires
        i <= end <= t@.len(),
    ensures
        match r {
            Ok((v, j)) => spec_string_value(tokens_view(t@), i as int, end as int) == Ok::<(Seq<char>, int), AttrErrorView>((v@, j as int)),
            Err(e) => spec_string_value(tokens_view(t@), i as int, end as int) == Err::<(Seq<char>, int), AttrErrorView>(e@),
        },
{
    if !punct_at(t, i, end, '=') {
        return Err(syntax(SyntaxError::ExpectedEq));
    }
    if i + 1 < end {
        match &t[i + 1] {
            Token::Str(v) => Ok((v.clone(), i + 2)),
            _ => Err(syntax(SyntaxError::ExpectedString)),
        }
    } else {
        Err(syntax(SyntaxError::ExpectedString))
    }
}

/// See `spec_trailing_comma`.
fn parse_trailing_comma(t: &Vec<Token>, j: usize, end: usize) -> (r: Result<usize, AttrError>)
    requires
        j <= end <= t@.len(),
    ensures
        match r {
            Ok(k) => spec_trailing_comma(tokens_view(t@), j as int, end as int) == Ok::<int, AttrErrorView>(k as int),
            Err(e) => spec_trailing_comma(tokens_view(t@), j as int, end as int) == Err::<int, AttrErrorView>(e@),
        },
{
    if j >= end {
        Ok(j)
    } else if punct_at(t, j, end, ',') {
        Ok(j + 1)
    } else {
        Err(syntax(SyntaxError::ExpectedComma))
    }
}

/// The error for an option name that `#[tusks(...)]` does not know.
fn unknown_attribute_error(name: &String) -> (r: AttrError)
    ensures
        r@ == AttrErrorView::UnknownAttribute(name@),
{
    AttrError::UnknownAttribute(name.clone())
}

/// The error for a parameter name that `tasks(...)` does not know.
fn unknown_parameter_error(name: &String) -> (r: AttrError)
    ensures
        r@ == AttrErrorView::UnknownParameter(name@),
{
    AttrError::UnknownParameter(name.clone())
}

/// See `is_keyword`.
fn keyword(name: &str) -> (r: bool)
    ensures
        r == is_keyword(name@),
{
    str_eq(name, "_") ||
    str_eq(name, "abstract") ||
    str_eq(name, "as") ||
    str_eq(name, "async") ||
    str_eq(name, "await") ||
    str_eq(name, "become") ||
    str_eq(name, "box") ||
    str_eq(name, "break") ||
    str_eq(name, "const") ||
    str_eq(name, "continue") ||
    str_eq(name, "crate") ||
    str_eq(name, "do") ||
    str_eq(name, "dyn") ||
    str_eq(name, "else") ||
    str_eq(name, "enum") ||
    str_eq(name, "extern") ||
    str_eq(name, "false") ||
    str_eq(name, "final") ||
    str_eq(name, "fn") ||
    str_eq(name, "for") ||
    str_eq(name, "if") ||
    str_eq(name, "impl") ||
    str_eq(name, "in") ||
    str_eq(name, "let") ||
    str_eq(name, "loop") ||
    str_eq(name, "macro") ||
    str_eq(name, "match") ||
    str_eq(name, "mod") ||
    str_eq(name, "move") ||
    str_eq(name, "mut") ||
    str_eq(name, "override") ||
    str_eq(name, "priv") ||
    str_eq(name, "pub") ||
    str_eq(name, "ref") ||
    str_eq(name, "return") ||
    str_eq(name, "Self") ||
    str_eq(name, "self") ||
    str_eq(name, "static") ||
    str_eq(name, "struct") ||
    str_eq(name, "super") ||
    str_eq(name, "trait") ||
    str_eq(name, "true") ||
    str_eq(name, "try") ||
    str_eq(name, "type") ||
    str_eq(name, "typeof") ||
    str_eq(name, "unsafe") ||
    str_eq(name, "unsized") ||
    str_eq(name, "use") ||
    str_eq(name, "virtual") ||
    str_eq(name, "where") ||
    str_eq(name, "while") ||
    str_eq(name, "yield")
}

/// The tasks options from `start` to `end`, applied to `acc` in order.
fn parse_config_items(t: &Vec<Token>, start: usize, end: usize, acc: TasksConfig) -> (r: Result<TasksConfig, AttrError>)
    requires
        start <= end <= t@.len(),
    ensures
        match r {
            Ok(c) => spec_config_items(tokens_view(t@), start as int, end as int, acc@) == Ok::<TasksConfigView, AttrErrorView>(c@),
            Err(e) => spec_config_items(tokens_view(t@), start as int, end as int, acc@) == Err::<TasksConfigView, AttrErrorView>(e@),
        },
{
    let ghost tv = tokens_view(t@);
    let mut cfg = acc;
    let mut i = start;
    while i < end
        invariant
            tv == tokens_view(t@),
            start <= i <= end <= t@.len(),
            spec_config_items(tv, start as int, end as int, acc@) == spec_config_items(tv, i as int, end as int, cfg@),
        decreases end - i,
    {
        assert(tv[i as int] == t@[i as int]@);
        let ghost before = cfg@;
        match &t[i] {
            Token::Ident(name) => {
                if keyword(name.as_str()) {
                    return Err(syntax(SyntaxError::ExpectedIdent));
                }
                let j: usize;
                if str_eq(name.as_str(), "max_groupsize") {
                    match parse_usize(t, i + 1, end) {
                        Ok((v, jj)) => {
                            cfg.max_groupsize = v;
                            j = jj;
                        },
                        Err(e) => {
                            return Err(e);
                        },
                    }
                } else if str_eq(name.as_str(), "max_depth") {
                    match parse_usize(t, i + 1, end) {
                        Ok((v, jj)) => {
                            cfg.max_depth = v;
                            j = jj;
                        },
                        Err(e) => {
                            return Err(e);
                        },
                    }
                } else if str_eq(name.as_str(), "separator") {
                    match parse_string(t, i + 1, end) {
                        Ok((v, jj)) => {
                            cfg.separator = v;
                            j = jj;
                        },
                        Err(e) => {
                            return Err(e);
                        },
                    }
                } else if str_eq(name.as_str(), "use_colors") {
                    match parse_bool_flag(t, i + 1, end) {
                        Ok((b, jj)) => {
                            cfg.use_colors = b;
                            j = jj;
                        },
                        Err(e) => {
                            return Err(e);
                        },
                    }
                } else {
                    return Err(unknown_parameter_error(name));
                }
                assert(spec_config_option(tv, i as int, end as int, name@, before) == Ok::<(TasksConfigView, int), AttrErrorView>((cfg@, j as int)));
                match parse_trailing_comma(t, j, end) {
                    Ok(k) => {
                        i = k;
                    },
                    Err(e) => {
                        return Err(e);
                    },
                }
            },
            _ => {
                return Err(syntax(SyntaxError::ExpectedIdent));
            },
        }
    }
    Ok(cfg)
}

/// See `matching_close`: the `)` that closes the parenthesis open before
/// `start`.
fn find_matching_close(t: &Vec<Token>, start: usize) -> (r: Option<usize>)
    requires
        start <= t@.len(),
    ensures
        match r {
            Some(c) => matching_close(tokens_view(t@), start as int, 0) == Some(c as int) && start <= c < t@.len(),
            None => matching_close(tokens_view(t@), start as int, 0) is None,
        },
{
    let ghost tv = tokens_view(t@);
    let mut depth: usize = 0;
    let mut i = start;
    while i < t.len()
        invariant
            tv == tokens_view(t@),
            start <= i <= t@.len(),
            depth <= i,
            matching_close(tv, start as int, 0) == matching_close(tv, i as int, depth as nat),
        decreases t@.len() - i,
    {
        assert(tv[i as int] == t@[i as int]@);
        match &t[i] {
            Token::Punct(c) => {
                if *c == '(' {
                    depth = depth + 1;
                } else if *c == ')' {
                    if depth == 0 {
                        return Some(i);
                    }
                    depth = depth - 1;
                }
            },
            _ => {},
        }
        i = i + 1;
    }
    None
}

/// See `spec_tasks_option`.
fn parse_tasks_option(t: &Vec<Token>, i: usize) -> (r: Result<(TasksConfig, usize), AttrError>)
    requires
        i < t.len(),
    ensures
        r matches Ok((c, j)) ==> i < j <= t@.len(),
        match r {
            Ok((c, j)) => spec_tasks_option(tokens_view(t@), i as int) == Ok::<(TasksConfigView, int), AttrErrorView>((c@, j as int)),
            Err(e) => spec_tasks_option(tokens_view(t@), i as int) == Err::<(TasksConfigView, int), AttrErrorView>(e@),
        },
{
    if punct_at(t, i + 1, t.len(), '(') {
        match find_matching_close(t, i + 2) {
            Some(c) => match parse_config_items(t, i + 2, c, TasksConfig::default()) {
                Ok(cfg) => Ok((cfg, c + 1)),
                Err(e) => Err(e),
            },
            None => Err(syntax(SyntaxError::UnbalancedParentheses)),
        }
    } else {
        Ok((TasksConfig::default(), i + 1))
    }
}

/// The module options from the start of the tokens.
fn parse_attr_items(t: &Vec<Token>) -> (r: Result<TusksAttr, AttrError>)
    ensures
        match r {
            Ok(a) => spec_attr_items(tokens_view(t@), 0, default_tusks_attr()) == Ok::<TusksAttrView, AttrErrorView>(a@),
            Err(e) => spec_attr_items(tokens_view(t@), 0, default_tusks_attr()) == Err::<TusksAttrView, AttrErrorView>(e@),
        },
{
    let ghost tv = tokens_view(t@);
    let mut attr = TusksAttr::default();
    let mut i: usize = 0;
    while i < t.len()
        invariant
            tv == tokens_view(t@),
            i <= t@.len(),
            spec_attr_items(tv, 0, default_tusks_attr()) == spec_attr_items(tv, i as int, attr@),
        decreases t@.len() - i,
    {
        assert(tv[i as int] == t@[i as int]@);
        let ghost before = attr@;
        match &t[i] {
            Token::Ident(name) => {
                if keyword(name.as_str()) {
                    return Err(syntax(SyntaxError::ExpectedIdent));
                }
                let j: usize;
                if str_eq(name.as_str(), "debug") {
                    match parse_bool_flag(t, i + 1, t.len()) {
                        Ok((b, jj)) => {
                            attr.debug = b;
                            j = jj;
                        },
                        Err(e) => {
                            return Err(e);
                        },
                    }
                } else if str_eq(name.as_str(), "root") {
                    match parse_bool_flag(t, i + 1, t.len()) {
                        Ok((b, jj)) => {
                            attr.root = b;
                            j = jj;
                        },
                        Err(e) => {
                            return Err(e);
                        },
                    }
                } else if str_eq(name.as_str(), "derive_debug_for_parameters") {
                    match parse_bool_flag(t, i + 1, t.len()) {
                        Ok((b, jj)) => {
                            attr.derive_debug_for_parameters = b;
                            j = jj;
                        },
                        Err(e) => {
                            return Err(e);
                        },
                    }
                } else if str_eq(name.as_str(), "tasks") {
                    match parse_tasks_option(t, i) {
                        Ok((cfg, jj)) => {
                            attr.tasks = Some(cfg);
                            j = jj;
                        },
                        Err(e) => {
                            return Err(e);
                        },
                    }
                } else {
                    return Err(unknown_attribute_error(name));
                }
                assert(spec_attr_option(tv, i as int, name@, before) == Ok::<(TusksAttrView, int), AttrErrorView>((attr@, j as int)));
                match parse_trailing_comma(t, j, t.len()) {
                    Ok(k) => {
                        i = k;
                    },
                    Err(e) => {
                        return Err(e);
                    },
                }
            },
            _ => {
                return Err(syntax(SyntaxError::ExpectedIdent));
            },
        }
    }
    Ok(attr)
}

impl TusksAttr {
    /// Parses the text of a `#[tusks(...)]` attribute's arguments, such as
    /// `root, debug, tasks(max_groupsize = 10, separator = "/")`.
    pub fn parse(input: &str) -> (r: Result<TusksAttr, AttrError>)
        ensures
            match r {
                Ok(a) => spec_parse_tusks_attr(input@) == Ok::<TusksAttrView, AttrErrorView>(a@),
                Err(e) => spec_parse_tusks_attr(input@) == Err::<TusksAttrView, AttrErrorView>(e@),
            },
    {
        match tokenize(input) {
            Ok(t) => parse_attr_items(&t),
            Err(e) => Err(syntax(e)),
        }
    }
}

impl TasksConfig {
    /// Parses the text inside `tasks(...)`, such as
    /// `max_groupsize = 10, separator = "/"`; options not given keep their
    /// defaults.
    pub fn parse(input: &str) -> (r: Result<TasksConfig, AttrError>)
        ensures
            match r {
                Ok(c) => spec_parse_tasks_config(input@) == Ok::<TasksConfigView, AttrErrorView>(c@),
                Err(e) => spec_parse_tasks_config(input@) == Err::<TasksConfigView, AttrErrorView>(e@),
            },
    {
        match tokenize(input) {
            Ok(t) => parse_config_items(&t, 0, t.len(), TasksConfig::default()),
            Err(e) => Err(syntax(e)),
        }
    }
}

impl AttrError {
    /// The text of the error: `unknown tusks attribute: <name>`,
    /// `unknown tasks parameter: <name>`, or the syntax error.
    pub fn message(&self) -> (r: String)
        ensures
            r@ == error_message(self@),
    {
        let mut v: Vec<char>;
        match self {
            AttrError::UnknownAttribute(n) => {
                v = chars_of("unknown tusks attribute: ");
                let nc = chars_of(n.as_str());
                let mut k: usize = 0;
                let ghost v0 = v@;
                while k < nc.len()
                    invariant
                        k <= nc@.len(),
                        v@ == v0 + nc@.take(k as int),
                    decreases nc@.len() - k,
                {
                    v.push(nc[k]);
                    assert(nc@.take(k + 1) == nc@.take(k as int).push(nc@[k as int]));
                    k = k + 1;
                }
                assert(nc@.take(nc@.len() as int) == nc@);
            },
            AttrError::UnknownParameter(n) => {
                v = chars_of("unknown tasks parameter: ");
                let nc = chars_of(n.as_str());
                let mut k: usize = 0;
                let ghost v0 = v@;
                while k < nc.len()
                    invariant
                        k <= nc@.len(),
                        v@ == v0 + nc@.take(k as int),
                    decreases nc@.len() - k,
                {
                    v.push(nc[k]);
                    assert(nc@.take(k + 1) == nc@.take(k as int).push(nc@[k as int]));
                    k = k + 1;
                }
                assert(nc@.take(nc@.len() as int) == nc@);
            },
            AttrError::Syntax(e) => {
                v = syntax_text(*e);
            },
        }
        string_from_chars(&v)
    }
}

/// The characters of a syntax error's text.
fn syntax_text(e: SyntaxError) -> (r: Vec<char>)
    ensures
        r@ == syntax_message(e),
{
    match e {
        SyntaxError::UnexpectedChar(c) => {
            let mut v = chars_of("unexpected character: ");
            v.push(c);
            v
        },
        SyntaxError::UnterminatedString => chars_of("unterminated string literal"),
        SyntaxError::UnknownEscape(c) => {
            let mut v = chars_of("unknown character escape: ");
            v.push(c);
            v
        },
        SyntaxError::InvalidEscape(c) => {
            let mut v = chars_of("invalid escape: \\");
            v.push(c);
            v
        },
        SyntaxError::BareCarriageReturn => chars_of("bare CR not allowed in string"),
        SyntaxError::InvalidNumber => chars_of("invalid integer literal"),
        SyntaxError::UnbalancedParentheses => chars_of("unbalanced parentheses"),
        SyntaxError::ExpectedIdent => chars_of("expected identifier"),
        SyntaxError::ExpectedEq => chars_of("expected `=`"),
        SyntaxError::ExpectedComma => chars_of("expected `,`"),
        SyntaxError::ExpectedBool => chars_of("expected boolean literal"),
        SyntaxError::ExpectedInt => chars_of("expected integer literal"),
        SyntaxError::ExpectedString => chars_of("expected string literal"),
        SyntaxError::NumberTooLarge => chars_of("number too large to fit in target type"),
        SyntaxError::UnexpectedEnd => chars_of("unexpected end of input"),
    }
}

} // verus!
