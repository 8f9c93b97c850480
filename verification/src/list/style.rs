//! Display width and terminal colours of the overview's text.
use vstd::prelude::*;
use owo_colors::OwoColorize;
use unicode_width::UnicodeWidthStr;

verus! {

/// The number of terminal columns a string takes, as unicode-width's
/// `UnicodeWidthStr::width` computes it.
pub uninterp spec fn str_width(s: Seq<char>) -> usize;

/// `UnicodeWidthStr::width` of unicode-width: the displayed width of the
/// string in columns.  The contract claims only that the result is a
/// function of the string's characters.
#[verifier::external_body]
pub(crate) fn display_width(s: &str) -> (r: usize)
    ensures
        r == str_width(s@),
{
    UnicodeWidthStr::width(s)
}

/// `text` wrapped in a foreground colour code and the code that resets the
/// foreground colour.
pub open spec fn fg(code: Seq<char>, text: Seq<char>) -> Seq<char> {
    code + text + "\x1b[39m"@
}

/// `text` wrapped in the bold code and the code that resets all styles.
pub open spec fn bold(text: Seq<char>) -> Seq<char> {
    "\x1b[1m"@ + text + "\x1b[0m"@
}

/// owo-colors' `green()`, displayed: the code `ESC[32m`, the text, and the
/// code `ESC[39m`, as `FgColorDisplay`'s `Display` writes them.
#[verifier::external_body]
pub(crate) fn style_green(s: &str) -> (r: String)
    ensures
        r@ == fg("\x1b[32m"@, s@),
{
    format!("{}", s.green())
}

/// owo-colors' `yellow()`, displayed: `ESC[33m`, the text, `ESC[39m`.
#[verifier::external_body]
pub(crate) fn style_yellow(s: &str) -> (r: String)
    ensures
        r@ == fg("\x1b[33m"@, s@),
{
    format!("{}", s.yellow())
}

/// owo-colors' `bright_black()`, displayed: `ESC[90m`, the text, `ESC[39m`.
#[verifier::external_body]
pub(crate) fn style_bright_black(s: &str) -> (r: String)
    ensures
        r@ == fg("\x1b[90m"@, s@),
{
    format!("{}", s.bright_black())
}

/// owo-colors' `bright_blue().bold()`, displayed: `BoldDisplay` writes
/// `ESC[1m`, then the coloured text (`ESC[94m`, text, `ESC[39m`), then
/// `ESC[0m`.
#[verifier::external_body]
pub(crate) fn style_bright_blue_bold(s: &str) -> (r: String)
    ensures
        r@ == bold(fg("\x1b[94m"@, s@)),
{
    format!("{}", s.bright_blue().bold())
}

/// owo-colors' `cyan().bold()`, displayed: `ESC[1m`, then `ESC[36m`, the
/// text, `ESC[39m`, then `ESC[0m`.
#[verifier::external_body]
pub(crate) fn style_cyan_bold(s: &str) -> (r: String)
    ensures
        r@ == bold(fg("\x1b[36m"@, s@)),
{
    format!("{}", s.cyan().bold())
}

} // verus!
