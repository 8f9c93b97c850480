//! Parsing of the `#[tusks(...)]` attribute, and validation of command
//! functions and parameter structs.
pub mod attribute;
pub mod syntax;
pub mod tusk;
pub mod parameters;
