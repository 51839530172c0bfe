//! Memo records: an input and the output computed from it.

use vstd::prelude::*;
use crate::value::Value;

verus! {

/// A cached computation: the input it was last computed for and its output.
pub struct MemoStore {
    pub cached_output: Value,
    pub cached_input: Value,
}

} // verus!
