//! Core logic of a version-control command-line tool: acquiring lock files,
//! parsing time expressions, the decisions and messages of the
//! `file untrack` command, and the pool of reused working copies in which
//! `jj run` runs a command on each revision.

pub mod date_text;
pub mod decimal;
pub mod lock;
pub mod run_pool;
pub mod time_expression;
pub mod untrack;
pub mod working_copy;
