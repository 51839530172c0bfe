//! Identity of renderers.

use vstd::prelude::*;

verus! {

/// Identifies a mounted component, the renderer of its subtree. An
/// identifier is given out once and never again, so a handle that outlives
/// its component refers to nothing.
pub type RendererId = usize;

} // verus!
