//! Verified core of an SVN desktop client: parsing of `svn` output,
//! error classification, three-way conflict handling, diff chunking and
//! the small state machines (tasks, favorites, history) behind the UI.

pub mod text;
pub mod models;
pub mod conflict;
pub mod xml;
pub mod parser;
pub mod diff;
pub mod task;
pub mod favorites;
pub mod history;
pub mod settings;
pub mod watch;
pub mod commands;
pub mod ignore;
pub mod parse_laws;
