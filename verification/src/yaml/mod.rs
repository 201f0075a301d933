//! The default provider of shared history, which keeps it in a file.
pub mod cache;
pub mod deletion_scope;
pub mod file;
pub mod item_list;
pub mod laws;
pub mod list_laws;
pub mod recent;
pub mod rewrite_laws;
pub mod state;
pub mod state_laws;
pub mod time_profiler;
pub mod yaml_history;
