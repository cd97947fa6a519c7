use vstd::prelude::*;

verus! {

/// The ways in which a count can fail.
#[derive(Clone, Copy, Debug, PartialEq, Eq, Structural)]
pub enum CountError {
    /// The chunk size is zero, or a chunk cannot be buffered on this machine.
    InvalidConfig,
    /// Opening, seeking or reading the input failed.
    IoError,
    /// The command line names more than one input.
    UsageError,
}

} // verus!
