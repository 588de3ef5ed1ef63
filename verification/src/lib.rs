//! Find what is eating disk space on an Arch Linux system and plan its removal.
#![allow(unused_imports)]

pub mod app;
pub mod capability;
pub mod cli;
pub mod filter;
pub mod format;
pub mod graph;
pub mod janitor;
pub mod keys;
pub mod laws;
pub mod localdb;
pub mod model;
pub mod number;
pub mod path;
pub mod plan;
pub mod report;
pub mod scan;
pub mod session;
pub mod sets;
pub mod sort;
pub mod split;
pub mod tally;
pub mod targets;
pub mod text;
pub mod textmap;
pub mod ui;
pub mod usage;
pub mod web;
