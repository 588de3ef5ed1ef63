//! What the library promises as a whole.
//!
//! Each law is stated on the plain contents of its inputs and results: the
//! fields of a package, the characters of a path, the number in a cell.
pub mod cache;
pub mod cleaning;
pub mod commands;
pub mod database;
pub mod dependencies;
pub mod evidence;
pub mod figures;
pub mod interface;
pub mod invocation;
pub mod keymap;
pub mod mounts;
pub mod operations;
pub mod removal;
pub mod reports;
pub mod results;
pub mod scanning;
pub mod screens;
pub mod serving;
pub mod table;
pub mod walks;
pub mod words;
