//! The command that the program was asked to run.
use vstd::prelude::*;

verus! {

/// A command and its options.
#[derive(Debug, PartialEq, Eq, Structural, Clone, Copy)]
pub enum Command {
    /// Connect to the exchange and record market data.
    Record { sandbox: bool },
}

/// What the command line asked for.
#[derive(Debug, PartialEq, Eq, Structural, Clone, Copy)]
pub struct Arguments {
    pub command: Command,
}

} // verus!
