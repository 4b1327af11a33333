use vstd::prelude::*;

verus! {

/// Every way an arena operation can fail.
///
/// All failures are detected synchronously; none leaves the arena in a
/// partially mutated state.
#[derive(Debug, Clone, Copy, PartialEq, Eq, Structural)]
pub enum ArenaError {
    /// Construction was asked for a capacity of zero bytes.
    ZeroCapacity,
    /// The requested capacity cannot form a valid allocation request on
    /// this platform (it would overflow when rounded to the base alignment).
    InvalidLayout,
    /// The backing store could not be obtained. The `Vec`-backed arena
    /// aborts instead of reporting exhaustion, so its constructor never
    /// returns this variant; it is part of the error taxonomy for callers
    /// that treat allocator refusal as a recoverable condition.
    AllocationFailed,
    /// An allocation would advance the cursor past the arena's capacity.
    NotEnoughCapacity,
}

impl ArenaError {
    /// What `message` returns for each variant.
    pub open spec fn message_spec(self) -> Seq<char> {
        match self {
            ArenaError::ZeroCapacity => "Zero capacity"@,
            ArenaError::InvalidLayout => "Invalid layout"@,
            ArenaError::AllocationFailed => "Allocation failed"@,
            ArenaError::NotEnoughCapacity => "Not enough capacity"@,
        }
    }

    /// A short human-readable description of the error.
    pub fn message(&self) -> (r: &'static str)
        ensures
            r@ == self.message_spec(),
    {
        match self {
            ArenaError::ZeroCapacity => "Zero capacity",
            ArenaError::InvalidLayout => "Invalid layout",
            ArenaError::AllocationFailed => "Allocation failed",
            ArenaError::NotEnoughCapacity => "Not enough capacity",
        }
    }
}

} // verus!
