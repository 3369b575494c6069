//! Spell checking of the names and documentation of a declaration tree.

pub mod dictionary;
pub mod lint;
pub mod policy;
pub mod position;
pub mod record;
pub mod tree;
pub mod visitor;
pub mod wordlist;
pub mod words;
