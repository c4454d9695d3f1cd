use vstd::prelude::*;

verus! {

/// The ways a run of this tool can fail. Every failure is terminal: nothing
/// is retried, and the process surfaces the error as a non-zero exit.
#[derive(Clone, Copy, Debug, PartialEq, Eq, Structural)]
pub enum ToolError {
    /// The input bytes are not a well-formed static-archive container
    /// (bad magic, truncated header or member, malformed size field).
    ArchiveFormatError,
    /// A member identifier in an archive header is empty or is not
    /// printable ASCII text.
    InvalidIdentifierError,
    /// A filesystem read or write failed.
    IoError,
    /// The external linker could not be spawned at all.
    LinkerInvocationError,
    /// The external linker ran and exited with the given non-zero status.
    LinkFailure(i32),
}

} // verus!
