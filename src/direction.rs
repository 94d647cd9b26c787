use vstd::prelude::*;

verus! {

/// Which side a sibling hash goes on when a proof is folded towards the root.
#[derive(Clone, Copy, Debug, PartialEq, Eq, Structural)]
pub enum Direction {
    /// The sibling goes before the running hash.
    Left,
    /// The sibling goes after the running hash.
    Right,
}

} // verus!
