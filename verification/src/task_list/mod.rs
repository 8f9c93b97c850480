//! Tasks collected from a command tree, their order, and their grouping.
pub mod path_order;
pub mod models;
pub mod task_order;
pub mod grouping;
pub mod init;
pub mod grouping_laws;
pub mod grouping_order;
pub mod grouping_levels;
pub mod grouping_names;
pub mod grouping_merge;
