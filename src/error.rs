use vstd::prelude::*;

verus! {

/// Why an operation of the storage core refused its input.
#[derive(Clone, Copy, Debug, PartialEq, Eq, Structural)]
pub enum KvcError {
    /// No ancestor of the starting directory holds the metadata folder.
    NotARepository,
    /// A path lies outside the working tree, or cannot be stored in the
    /// index ledger.
    InvalidPath,
    /// A ledger line has no field delimiter.
    CorruptIndex,
    /// A command that acts on a path was given none.
    MissingPath,
    /// The configuration file is empty.
    EmptyConfig,
    /// A configuration line has no `=`.
    MalformedConfig,
    /// A configuration name that is not one of the known ones.
    UnknownConfig,
}

} // verus!
