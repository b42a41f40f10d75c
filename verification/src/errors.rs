//! Error types: construction-time configuration errors, step-time "no rule"
//! errors, and malformed textual rule encodings.

use vstd::prelude::*;

verus! {

/// Raised by a step when no transition is defined for the symbol under the
/// head combined with the current state.
#[derive(Clone, Debug, PartialEq, Eq, Structural)]
pub struct NoRuleError {
    pub value: char,
    pub state: usize,
}

impl NoRuleError {
    pub fn new(value: char, state: usize) -> (r: Self)
        ensures
            r.value == value,
            r.state == state,
    {
        NoRuleError { value, state }
    }

    pub fn wrapped(value: char, state: usize) -> (r: TuringMachineError)
        ensures
            r == TuringMachineError::NoRule(NoRuleError { value, state }),
    {
        TuringMachineError::NoRule(Self::new(value, state))
    }
}

/// The errors a running machine can surface to its caller.
#[derive(Clone, Debug, PartialEq, Eq, Structural)]
pub enum TuringMachineError {
    NoRule(NoRuleError),
}

/// Raised when a compact textual rule encoding cannot be parsed; carries the
/// offending text.
#[derive(Clone, Debug, PartialEq, Eq)]
pub struct IncorrectRuleError {
    pub rule: String,
}

impl IncorrectRuleError {
    pub fn new(rule: String) -> (r: Self)
        ensures
            r.rule == rule,
    {
        IncorrectRuleError { rule }
    }
}

/// Raised at construction when the supplied tape, alphabet and rule table do
/// not form a valid machine.  Construction is atomic: on any of these errors
/// no machine is returned.
#[derive(Clone, Debug, PartialEq, Eq)]
pub enum ConfigurationError {
    /// The tape must hold at least one cell.
    EmptyMemory,
    /// The user-supplied alphabet may not declare the reserved blank symbol;
    /// the machine adds it implicitly.
    BlankInAlphabet,
    /// Symbols referenced by the rule table or the tape that are neither in
    /// the alphabet nor the blank symbol; every offender is listed once.
    UnknownSymbols(Vec<char>),
}

} // verus!
