//! Core of a grammar compiler for LR/GLR parsers.
//!
//! - `generate`: the stages below composed, from a prepared grammar to
//!   the catalog, the parse table, its text and the lexer modes.
//! - `tables`: the parse table, every ACTION cell resolved, and the lexer
//!   modes that limit each state to its valid terminals.
//! - `conflicts`: resolution of competing actions in one ACTION cell.
//! - `items`: item-set closure, GOTO kernels and state construction.
//! - `actions`: the candidate actions of a cell, from a state's items.
//! - `inline`: inlining of single-production wrapper rules.
//! - `node_types`: the node-type catalog.
//! - `lexing`: the choice among tokens that match at one position.
//! - `render`: transition and ACTION table text for the generated source.
//! - `abi`: binary-interface versions and table limits.
//! - `load`, `document`: decisions taken while loading a grammar document.

pub mod abi;
pub mod actions;
pub mod conflicts;
pub mod document;
pub mod inline;
pub mod items;
pub mod lexing;
pub mod load;
pub mod node_types;
pub mod render;
pub mod text;
pub mod tables;
pub mod generate;
