//! A single-tape Turing machine with a circular tape.
//!
//! The machine owns a fixed-length tape of symbols, a table of transition
//! rules keyed by (symbol, state), a head position, a current state, and a
//! cycle counter.  State `0` is reserved and means "halted"; a fresh machine
//! starts in state `1` with the head at cell `0`.  Each step reads the symbol
//! under the head, looks up the rule for the (symbol, state) pair, writes the
//! rule's symbol, moves the head (wrapping around either end of the tape),
//! and advances to the rule's state.

pub mod errors;
pub mod rule_parsing;
pub mod rules;
pub mod turing_machine;
