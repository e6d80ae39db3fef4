//! An interpreter for a language of eight commands that move a pointer
//! over a tape of 30000 byte cells, change the addressed cell, read and
//! write it, and loop while it is not zero.
//!
//! A program is run in one of three ways, called tiers, which compute the
//! same thing:
//!
//! - `simple`: the tokens are interpreted one by one, and the other end
//!   of a loop is found by a nesting scan whenever it is needed;
//! - `table`: the tokens are interpreted one by one, and the other end of
//!   a loop is looked up in a jump table that `jumps` makes once;
//! - `folded`: runs of equal commands are folded by `fold` into counted
//!   instructions, loop delimiters carry the index of their partner, and
//!   each instruction is applied with its count in one step.
//!
//! `brackets` defines what it means for loop delimiters to be balanced
//! and to be partners, and `matcher` computes it, for tokens and folded
//! instructions alike. `machine` holds the state of a run and what one
//! instruction does to it, `semantics` what a program means, and
//! `equivalence` the proof that the tiers agree. `run` is the entry for
//! a whole program; a driver that feeds input as it comes steps a
//! machine itself and asks `input` how much the next step reads.

pub mod brackets;
pub mod cells;
pub mod equivalence;
pub mod error;
pub mod fold;
pub mod folded;
pub mod input;
pub mod jumps;
pub mod machine;
pub mod matcher;
pub mod nesting;
pub mod ops;
pub mod run;
pub mod semantics;
pub mod simple;
pub mod source;
pub mod table;
