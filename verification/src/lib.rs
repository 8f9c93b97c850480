//! Tusks: command-line structure described by Rust modules, and the grouped
//! task overview of its tasks mode.  The crate holds the verified logic:
//! task ordering and grouping, the task overview layout, the parsing of the
//! `#[tusks(...)]` attribute, the validation of command functions and
//! parameter structs, and the planning of the command dispatch.
pub mod text;
pub mod task_list;
pub mod list;
pub mod parsing;
pub mod codegen;
pub mod sample_commands;
