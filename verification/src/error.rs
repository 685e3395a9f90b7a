use vstd::prelude::*;

verus! {

/// Why a writer stopped.
#[derive(Clone, Copy, Debug, PartialEq, Eq, Structural)]
pub enum GenError {
    /// The unwritten tail was shorter than the write that failed; the field is
    /// the number of bytes that this one write needed.
    BufferTooSmall(usize),
}

} // verus!
