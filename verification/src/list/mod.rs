//! The task overview: list models, the conversion from a task list, and the
//! layout of the overview's lines.
pub mod models;
pub mod conversion;
pub mod style;
pub mod render;
pub mod list_laws;
pub mod layout_laws;
