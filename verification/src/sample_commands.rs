//! The command functions of the sample command-line programs that show how
//! tusks modules are written, as far as they decide something: the results
//! of the commands of the result-return sample, the global parameters of
//! the global-argument sample, and the value enums of the value-enum sample
//! with the labels the commands print for them.
use vstd::prelude::*;
use crate::text::to_owned_string;

verus! {

/// The global parameters of the global-argument sample: a flag that every
/// subcommand sees.
pub struct Parameters<'a> {
    pub verbose: &'a bool,
}

/// A colour choice of the value-enum sample.
#[derive(Debug, Clone, Copy, PartialEq, Eq, Structural)]
pub enum Color {
    Auto,
    Always,
    Never,
}

/// An output format of the value-enum sample.
#[derive(Debug, Clone, Copy, PartialEq, Eq, Structural)]
pub enum Format {
    Json,
    Text,
    Yaml,
}

/// The label of a colour choice.
pub open spec fn color_text(c: Color) -> Seq<char> {
    match c {
        Color::Auto => "auto"@,
        Color::Always => "always"@,
        Color::Never => "never"@,
    }
}

/// The label of an output format.
pub open spec fn format_text(f: Format) -> Seq<char> {
    match f {
        Format::Json => "json"@,
        Format::Text => "text"@,
        Format::Yaml => "yaml"@,
    }
}

/// The label that `paint` prints for a colour choice.
pub fn color_label(c: Color) -> (r: &'static str)
    ensures
        r@ == color_text(c),
{
    match c {
        Color::Auto => "auto",
        Color::Always => "always",
        Color::Never => "never",
    }
}

/// The label that `output` prints for a format.
pub fn format_label(f: Format) -> (r: &'static str)
    ensures
        r@ == format_text(f),
{
    match f {
        Format::Json => "json",
        Format::Text => "text",
        Format::Yaml => "yaml",
    }
}

/// The command that always fails, with its message.
pub fn fail() -> (r: Result<(), String>)
    ensures
        r matches Err(e) && e@ == "something went wrong"@,
{
    Err(to_owned_string("something went wrong"))
}

/// The command that succeeds with exit code 42.
pub fn check_fail() -> (r: Result<u8, String>)
    ensures
        r == Ok::<u8, String>(42),
{
    Ok(42)
}

/// The result of `maybe`: an error when asked to fail, exit code 0
/// otherwise.
pub fn maybe_result(fail: bool) -> (r: Result<Option<u8>, String>)
    ensures
        fail ==> (r matches Err(e) && e@ == "not ok"@),
        !fail ==> r == Ok::<Option<u8>, String>(Some(0u8)),
{
    if fail {
        Err(to_owned_string("not ok"))
    } else {
        Ok(Some(0))
    }
}

} // verus!
