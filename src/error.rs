use vstd::prelude::*;

verus! {

/// The ways in which a synchronisation step can fail.
#[derive(Debug, PartialEq, Eq)]
pub enum SyncError {
    /// The coverage tool produced a map of the wrong length.
    MapSizeMismatch { expected: usize, actual: usize },
    /// The fuzzer's statistics hold no `command_line` entry.
    MissingCommandLine,
    /// The `command_line` entry has no `:` separating key and value.
    MalformedCommandLine,
    /// The fuzzer's command line holds no program.
    EmptyCommand,
    /// Every sequence number has been handed out.
    CounterExhausted,
}

} // verus!
