//! The options of the `#[tusks(...)]` attribute and the errors of its
//! parsing.
use vstd::prelude::*;
use crate::text::to_owned_string;

verus! {

/// Options of a tusks module.
#[derive(Debug)]
pub struct TusksAttr {
    pub debug: bool,
    pub root: bool,
    pub derive_debug_for_parameters: bool,
    pub tasks: Option<TasksConfig>,
}

/// Options of tasks mode.
#[derive(Debug)]
pub struct TasksConfig {
    pub max_groupsize: usize,
    pub max_depth: usize,
    pub separator: String,
    pub use_colors: bool,
}

/// Tasks mode options as plain values.
pub struct TasksConfigView {
    pub max_groupsize: usize,
    pub max_depth: usize,
    pub separator: Seq<char>,
    pub use_colors: bool,
}

/// Module options as plain values.
pub struct TusksAttrView {
    pub debug: bool,
    pub root: bool,
    pub derive_debug_for_parameters: bool,
    pub tasks: Option<TasksConfigView>,
}

impl View for TasksConfig {
    type V = TasksConfigView;

    open spec fn view(&self) -> TasksConfigView {
        TasksConfigView {
            max_groupsize: self.max_groupsize,
            max_depth: self.max_depth,
            separator: self.separator@,
            use_colors: self.use_colors,
        }
    }
}

impl View for TusksAttr {
    type V = TusksAttrView;

    open spec fn view(&self) -> TusksAttrView {
        TusksAttrView {
            debug: self.debug,
            root: self.root,
            derive_debug_for_parameters: self.derive_debug_for_parameters,
            tasks: match self.tasks {
                Some(t) => Some(t@),
                None => None,
            },
        }
    }
}

/// The tasks mode options used where none are given: groups of at most
/// five tasks, nesting up to twenty levels, `.` between path segments,
/// colours on.
pub open spec fn default_tasks_config() -> TasksConfigView {
    TasksConfigView { max_groupsize: 5, max_depth: 20, separator: "."@, use_colors: true }
}

/// No option set.
pub open spec fn default_tusks_attr() -> TusksAttrView {
    TusksAttrView { debug: false, root: false, derive_debug_for_parameters: false, tasks: None }
}

impl Default for TasksConfig {
    fn default() -> (r: Self)
        ensures
            r@ == default_tasks_config(),
    {
        TasksConfig { max_groupsize: 5, max_depth: 20, separator: to_owned_string("."), use_colors: true }
    }
}

impl Default for TusksAttr {
    fn default() -> (r: Self)
        ensures
            r@ == default_tusks_attr(),
    {
        TusksAttr { debug: false, root: false, derive_debug_for_parameters: false, tasks: None }
    }
}

/// What went wrong in the syntax of the attribute.
#[derive(Debug, Clone, Copy, PartialEq, Eq, Structural)]
pub enum SyntaxError {
    /// A character that starts no token.
    UnexpectedChar(char),
    /// A string literal without its closing quote.
    UnterminatedString,
    /// A backslash escape in a string literal that Rust does not know.
    UnknownEscape(char),
    /// A malformed `\x` or `\u{...}` escape (its letter), such as one out of
    /// range.
    InvalidEscape(char),
    /// A carriage return in a string literal without a line feed after it.
    BareCarriageReturn,
    /// An integer literal followed by letters.
    InvalidNumber,
    /// A closing parenthesis without an opening one, or the reverse.
    UnbalancedParentheses,
    /// Some other token where a name was expected.
    ExpectedIdent,
    /// Some other token where `=` was expected.
    ExpectedEq,
    /// Some other token where `,` was expected.
    ExpectedComma,
    /// Some other token where `true` or `false` was expected.
    ExpectedBool,
    /// Some other token where an integer literal was expected.
    ExpectedInt,
    /// Some other token where a string literal was expected.
    ExpectedString,
    /// An integer literal too large for a `usize`.
    NumberTooLarge,
    /// The input ends where a token was expected.
    UnexpectedEnd,
}

/// Why the attribute was refused.
#[derive(Debug)]
pub enum AttrError {
    /// An option name that `#[tusks(...)]` does not know.
    UnknownAttribute(String),
    /// A parameter name that `tasks(...)` does not know.
    UnknownParameter(String),
    /// Malformed syntax.
    Syntax(SyntaxError),
}

/// An attribute error as plain values.
pub enum AttrErrorView {
    UnknownAttribute(Seq<char>),
    UnknownParameter(Seq<char>),
    Syntax(SyntaxError),
}

impl View for AttrError {
    type V = AttrErrorView;

    open spec fn view(&self) -> AttrErrorView {
        match self {
            AttrError::UnknownAttribute(n) => AttrErrorView::UnknownAttribute(n@),
            AttrError::UnknownParameter(n) => AttrErrorView::UnknownParameter(n@),
            AttrError::Syntax(e) => AttrErrorView::Syntax(*e),
        }
    }
}

/// The text of a syntax error.
pub open spec fn syntax_message(e: SyntaxError) -> Seq<char> {
    match e {
        SyntaxError::UnexpectedChar(c) => "unexpected character: "@.push(c),
        SyntaxError::UnterminatedString => "unterminated string literal"@,
        SyntaxError::UnknownEscape(c) => "unknown character escape: "@.push(c),
        SyntaxError::InvalidEscape(c) => "invalid escape: \\"@.push(c),
        SyntaxError::BareCarriageReturn => "bare CR not allowed in string"@,
        SyntaxError::InvalidNumber => "invalid integer literal"@,
        SyntaxError::UnbalancedParentheses => "unbalanced parentheses"@,
        SyntaxError::ExpectedIdent => "expected identifier"@,
        SyntaxError::ExpectedEq => "expected `=`"@,
        SyntaxError::ExpectedComma => "expected `,`"@,
        SyntaxError::ExpectedBool => "expected boolean literal"@,
        SyntaxError::ExpectedInt => "expected integer literal"@,
        SyntaxError::ExpectedString => "expected string literal"@,
        SyntaxError::NumberTooLarge => "number too large to fit in target type"@,
        SyntaxError::UnexpectedEnd => "unexpected end of input"@,
    }
}

/// The text of an attribute error.
pub open spec fn error_message(e: AttrErrorView) -> Seq<char> {
    match e {
        AttrErrorView::UnknownAttribute(n) => "unknown tusks attribute: "@ + n,
        AttrErrorView::UnknownParameter(n) => "unknown tasks parameter: "@ + n,
        AttrErrorView::Syntax(s) => syntax_message(s),
    }
}

} // verus!
