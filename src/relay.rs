use vstd::prelude::*;

verus! {

/// The most bytes that one read of a copy loop takes.
pub const CHUNK: usize = 49152;

/// What a copy loop does after a read.
#[derive(Debug, Clone, Copy, PartialEq, Eq, Structural)]
pub enum CopyStep {
    /// Write these many bytes, the ones just read, and flush before reading again.
    Forward(usize),
    /// The reader reached its end: the loop ends successfully.
    Finished,
}

/// The decision of a copy loop on a read of `n` bytes: a read of nothing is
/// the end of the stream; anything else is forwarded whole.
pub fn copy_step(n: usize) -> (r: CopyStep)
    requires
        n <= CHUNK,
    ensures
        r == (if n == 0 {
            CopyStep::Finished
        } else {
            CopyStep::Forward(n)
        }),
{
    if n == 0 {
        CopyStep::Finished
    } else {
        CopyStep::Forward(n)
    }
}

} // verus!
