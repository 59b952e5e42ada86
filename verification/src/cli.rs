//! The command-line interface: its command tree, its flags and what it does
//! with the words of a command line.

pub mod builder;
pub mod builtins;
pub mod collect;
pub mod completing;
pub mod cta;
pub mod flags;
pub mod generated;
pub mod pages;
pub mod report;
pub mod results;
pub mod run;
pub mod suggest;
pub mod tokens;
pub mod tree;
pub mod walk;
pub mod warnings;
