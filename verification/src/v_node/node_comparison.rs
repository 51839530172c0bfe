//! The outcome of holding a new description against what is mounted.

use vstd::prelude::*;

verus! {

/// How a new node relates to the one it is to replace.
#[derive(Clone, Copy, PartialEq, Eq, Structural, Debug)]
pub enum NodeComparisonResult {
    /// Same type and equal content: nothing to do.
    Equal,
    /// Same type, other content: update in place.
    SameType,
    /// Another type: tear down and build anew.
    DifferentType,
}

} // verus!
