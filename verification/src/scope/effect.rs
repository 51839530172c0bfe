//! Effect records: what to run after a render commits, and what to run
//! before it is replaced or dropped.

use vstd::prelude::*;
use crate::value::Value;

verus! {

/// Names an effect body or a cleanup body that the component author holds.
pub type EffectToken = u64;

/// One effect of a component: the body to run, the cleanup that the last
/// run left behind, the basis it was last scheduled for (none for an effect
/// that runs after every render), and whether it is waiting to run.
pub struct EffectStore {
    pub effect: EffectToken,
    pub cleanup: Option<EffectToken>,
    pub basis: Option<Value>,
    pub pending_execution: bool,
}

/// What the host has to run for one effect: the cleanup of the previous
/// run, if there is one, and then the effect itself.
#[derive(Clone, Copy, PartialEq, Eq, Structural, Debug)]
pub struct EffectRun {
    pub cleanup: Option<EffectToken>,
    pub effect: EffectToken,
}

impl EffectStore {
    /// The record that replaces this one when the basis changed: the new
    /// body and basis, the old cleanup, waiting to run.
    pub fn update(&self, new_effect: EffectToken, new_basis: Option<Value>) -> (r: EffectStore)
        ensures
            r.effect == new_effect,
            r.basis == new_basis,
            r.cleanup == self.cleanup,
            r.pending_execution,
    {
        EffectStore {
            effect: new_effect,
            basis: new_basis,
            cleanup: self.cleanup,
            pending_execution: true,
        }
    }

    /// Takes the effect off the waiting list and says what to run: the old
    /// cleanup first, then the body.
    pub fn execute(&mut self) -> (run: EffectRun)
        ensures
            run.cleanup == old(self).cleanup,
            run.effect == old(self).effect,
            *final(self) == (EffectStore {
                cleanup: None,
                pending_execution: false,
                ..*old(self)
            }),
    {
        let cleanup = self.cleanup.take();
        self.pending_execution = false;
        EffectRun { cleanup, effect: self.effect }
    }

    /// Records the cleanup that a run of the body handed back.
    pub fn keep_cleanup(&mut self, cleanup: Option<EffectToken>)
        ensures
            *final(self) == (EffectStore { cleanup, ..*old(self) }),
    {
        self.cleanup = cleanup;
    }

    /// Hands out the cleanup that is due, if any, and forgets it.
    pub fn cleanup(&mut self) -> (due: Option<EffectToken>)
        ensures
            due == old(self).cleanup,
            *final(self) == (EffectStore { cleanup: None, ..*old(self) }),
    {
        self.cleanup.take()
    }

    /// Whether the effect is waiting to run.
    pub fn is_pending(&self) -> (r: bool)
        ensures
            r == self.pending_execution,
    {
        self.pending_execution
    }
}

} // verus!
