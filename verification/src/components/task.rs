//! The tasks of the task list.

use vstd::prelude::*;

verus! {

/// One task: its number, whether it is done, and what it says.
#[derive(PartialEq, Eq, Debug)]
pub struct Task {
    pub id: usize,
    pub completed: bool,
    pub name: String,
}

} // verus!
