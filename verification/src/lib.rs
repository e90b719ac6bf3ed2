//! The decision logic of the `perfectionist` lint rules, each function
//! with the contract it keeps.
//!
//! Each rule reads plain facts about the code being linted (spans as
//! byte ranges, names, source text, flags such as "generated by a
//! macro") and decides what to report: [`rules`] holds one module per
//! rule. [`code_lines`] counts lines of code with `rustc_lexer`,
//! [`derive_list`] reads derive lists, [`rule_index`] lists the lints
//! and decides which passes install, and [`text`] holds the character
//! helpers the rules share. The compiler-facing plugin lives outside
//! the library and hands it those facts.
use vstd::prelude::*;

pub mod code_lines;
pub mod derive_list;
pub mod rule_index;
pub mod rules;
pub mod source;
pub mod text;

verus! {

} // verus!
