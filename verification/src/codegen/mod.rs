//! Planning of the generated command dispatch.
pub mod mod_path;
pub mod enum_util;
pub mod models;
pub mod dispatch;
pub mod dispatch_laws;
