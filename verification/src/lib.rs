//! The command history of an interactive shell.
//!
//! A [`history::History`] has a local part, which one session keeps to itself, and a shared part, which a
//! provider keeps. The default provider, in [`yaml`], keeps it in a file that several shells write to.
//!
//! Nothing here touches a file, a clock, a terminal or a thread. Where an operation needs one of them, it is
//! cut there: a function says what is to be done, and another one is told how it went.
pub mod api;
pub mod commands;
pub mod format;
pub mod history;
pub mod history_laws;
pub mod item;
pub mod laws;
pub mod match_laws;
pub mod path_utils;
pub mod populate;
pub mod registry;
pub mod required_paths_cache;
pub mod run_laws;
pub mod search;
pub mod search_laws;
pub mod search_run;
pub mod session;
pub mod text;
pub mod timestamp;
pub mod yaml;
