//! Verified core of a small interactive shell: command-line tokenising,
//! command dispatch, and the decision and formatting logic of its built-in
//! commands (`ls`, `cp`, `mv`, `rm`, `mkdir`, `cd`, `pwd`, `cat`, `echo`).
//! Everything that touches the terminal, the file system or the process
//! table is left to the caller, which hands plain values in and performs
//! the actions that come back.

pub mod output;
pub mod vecs;
pub mod paths;
pub mod text;
pub mod tokenizer;
pub mod entry;
pub mod sorting;
pub mod listing;
pub mod ls;
pub mod cp;
pub mod mv;
pub mod mkdir;
pub mod rm;
pub mod cd;
pub mod commands;
pub mod dispatch;
pub mod date;
