//! A context value with two fields, for trying out providers.

use vstd::prelude::*;

verus! {

/// A named counter.
pub struct ContextType {
    pub name: String,
    pub count: usize,
}

} // verus!
