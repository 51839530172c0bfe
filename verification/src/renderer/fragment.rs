//! Fragments: keyed children in render order.

use vstd::prelude::*;
use crate::renderer::mount::{content_model, Mount};
use crate::renderer::native::FactoryId;
use crate::renderer::runtime::Runtime;
use crate::renderer::world::{filled_slots, lemma_slot_of, slot_matches, slot_of, Slots};
use crate::scope::context::ContextLink;
use crate::v_node::component::ComponentModel;
use crate::v_node::v_node::VNode;

verus! {

/// The mounted children of a fragment, in the order of the last render,
/// each under its key.
pub struct FragmentMount {
    pub content: Vec<(String, Mount)>,
    pub context_link: ContextLink,
    pub native_mount_factory: FactoryId,
}

/// The items of `v` in reverse order.
pub(crate) fn reversed<T>(v: Vec<T>) -> (r: Vec<T>)
    ensures
        r@.len() == v@.len(),
        forall|i: int| 0 <= i < r@.len() ==> r@[i] == v@[v@.len() - 1 - i],
{
    let mut rest = v;
    let mut r: Vec<T> = Vec::new();
    while rest.len() > 0
        invariant
            rest@.len() + r@.len() == v@.len(),
            forall|i: int| 0 <= i < rest@.len() ==> rest@[i] == v@[i],
            forall|i: int| 0 <= i < r@.len() ==> r@[i] == v@[v@.len() - 1 - i],
        decreases rest@.len(),
    {
        let item = rest.pop().unwrap();
        r.push(item);
    }
    r
}

/// The models of a fragment's old children in their slots.
pub open spec fn slots_model(slots: Seq<(String, Option<Mount>)>) -> Slots {
    Seq::new(
        slots.len(),
        |i: int|
            (
                slots[i].0,
                match slots[i].1 {
                    Some(mount) => Some(mount@),
                    None => None,
                },
            ),
    )
}

/// Puts every old child into a slot, in order.
fn into_slots(content: Vec<(String, Mount)>) -> (slots: Vec<(String, Option<Mount>)>)
    ensures
        slots_model(slots@) == filled_slots(content_model(content@)),
{
    let ghost children = content@;
    let mut rest = reversed(content);
    let mut slots: Vec<(String, Option<Mount>)> = Vec::new();
    while rest.len() > 0
        invariant
            children == content@,
            rest@.len() + slots@.len() == children.len(),
            forall|i: int| 0 <= i < rest@.len() ==> rest@[i] == children[children.len() - 1 - i],
            forall|i: int|
                0 <= i < slots@.len() ==> slots@[i] == (children[i].0, Some(children[i].1)),
        decreases rest@.len(),
    {
        let (key, mount) = rest.pop().unwrap();
        slots.push((key, Some(mount)));
    }
    assert(slots_model(slots@) =~= filled_slots(content_model(content@)));
    slots
}

/// The position of the first slot that holds a child under `key`, or the
/// number of slots.
fn find_slot(slots: &Vec<(String, Option<Mount>)>, key: &String) -> (at: usize)
    ensures
        at == slot_of(slots_model(slots@), key@),
        at <= slots@.len(),
        at < slots@.len() ==> slots@[at as int].1.is_some(),
{
    let mut at: usize = 0;
    while at < slots.len() && !(slots[at].1.is_some() && slots[at].0 == *key)
        invariant
            at <= slots@.len(),
            forall|j: int| 0 <= j < at ==> !slot_matches(#[trigger] slots_model(slots@)[j], key@),
        decreases slots@.len() - at,
    {
        at += 1;
    }
    proof {
        lemma_slot_of(slots_model(slots@), key@, at as int);
    }
    at
}

/// Tears down what is left in the slots, in order.
fn sweep<N, M: ComponentModel<N>>(slots: Vec<(String, Option<Mount>)>, rt: &mut Runtime<N, M>)
    ensures
        final(rt)@ == old(rt)@.swept(slots_model(slots@), slots@.len()),
            final(rt)@.components.len() >= old(rt)@.components.len(),
{
    let ghost all = slots@;
    let mut rest = reversed(slots);
    let ghost mut done: nat = 0;
    while rest.len() > 0
        invariant
            all == slots@,
            rest@.len() + done == all.len(),
            forall|i: int| 0 <= i < rest@.len() ==> rest@[i] == all[all.len() - 1 - i],
            rt@ == old(rt)@.swept(slots_model(all), done),
            rt@.components.len() >= old(rt)@.components.len(),
        decreases rest@.len(),
    {
        let (_, slot) = rest.pop().unwrap();
        assert(slot == all[done as int].1);
        match slot {
            Some(mount) => mount.unmount(rt),
            None => {},
        }
        proof {
            done = done + 1;
        }
    }
}

impl FragmentMount {
    /// Mounts the children of a fragment afresh, in order.
    pub fn new<N, M: ComponentModel<N>>(
        fragment: Vec<(String, VNode<N, M>)>,
        context_link: ContextLink,
        native_mount_factory: FactoryId,
        rt: &mut Runtime<N, M>,
    ) -> (mount: FragmentMount)
        ensures
            (final(rt)@, Mount::Fragment(mount)@) == old(rt)@.mounted(
                VNode::Fragment(fragment),
                context_link,
                native_mount_factory,
            ),
            final(rt)@.components.len() >= old(rt)@.components.len(),
        decreases fragment,
    {
        let ghost children = fragment@;
        let mut rest = reversed(fragment);
        let mut content: Vec<(String, Mount)> = Vec::new();
        let ghost mut done: nat = 0;
        while rest.len() > 0
            invariant
                children == fragment@,
                rest@.len() + done == children.len(),
                forall|i: int| 0 <= i < rest@.len() ==> rest@[i] == children[children.len() - 1 - i],
                (rt@, content_model(content@)) == old(rt)@.mounted_children(
                    children,
                    done,
                    context_link,
                    native_mount_factory,
                ),
                rt@.components.len() >= old(rt)@.components.len(),
            decreases rest@.len(),
        {
            let (key, node) = rest.pop().unwrap();
            assert(node == children[done as int].1);
            let ghost before = content@;
            let mount = Mount::new(node, context_link, native_mount_factory, rt);
            content.push((key, mount));
            assert(content_model(content@) =~= content_model(before).push((key, mount@)));
            proof {
                done = done + 1;
            }
        }
        FragmentMount { content, context_link, native_mount_factory }
    }

    /// Reconciles the fragment with its newly rendered children, by key.
    pub fn update<N, M: ComponentModel<N>>(
        &mut self,
        fragment: Vec<(String, VNode<N, M>)>,
        rt: &mut Runtime<N, M>,
    )
        ensures
            (final(rt)@, Mount::Fragment(*final(self))@) == old(rt)@.fragment_updated(
                content_model(old(self).content@),
                old(self).context_link,
                old(self).native_mount_factory,
                fragment@,
            ),
            final(rt)@.components.len() >= old(rt)@.components.len(),
        decreases fragment, 1nat,
    {
        self.rerender(fragment, rt)
    }

    fn rerender<N, M: ComponentModel<N>>(
        &mut self,
        fragment: Vec<(String, VNode<N, M>)>,
        rt: &mut Runtime<N, M>,
    )
        ensures
            (final(rt)@, Mount::Fragment(*final(self))@) == old(rt)@.fragment_updated(
                content_model(old(self).content@),
                old(self).context_link,
                old(self).native_mount_factory,
                fragment@,
            ),
            final(rt)@.components.len() >= old(rt)@.components.len(),
        decreases fragment, 0nat,
    {
        let context_link = self.context_link;
        let factory = self.native_mount_factory;
        let ghost before = content_model(self.content@);
        let mut previous: Vec<(String, Mount)> = Vec::new();
        core::mem::swap(&mut self.content, &mut previous);
        let mut slots = into_slots(previous);
        let ghost children = fragment@;
        let mut rest = reversed(fragment);
        let mut fresh: Vec<(String, Mount)> = Vec::new();
        let ghost mut done: nat = 0;
        while rest.len() > 0
            invariant
                children == fragment@,
                rest@.len() + done == children.len(),
                forall|i: int| 0 <= i < rest@.len() ==> rest@[i] == children[children.len() - 1 - i],
                (rt@, slots_model(slots@), content_model(fresh@)) == old(rt)@.reconciled(
                    filled_slots(before),
                    children,
                    done,
                    context_link,
                    factory,
                ),
                rt@.components.len() >= old(rt)@.components.len(),
            decreases rest@.len(),
        {
            let (key, node) = rest.pop().unwrap();
            assert(node == children[done as int].1);
            assert(key == children[done as int].0);
            let at = find_slot(&slots, &key);
            let ghost open = slots_model(slots@);
            let ghost content = fresh@;
            let mount = if at < slots.len() {
                let taken = slots[at].1.take().unwrap();
                assert(slots_model(slots@) =~= open.update(at as int, (open[at as int].0, None)));
                taken.update(node, factory, rt)
            } else {
                Mount::new(node, context_link, factory, rt)
            };
            fresh.push((key, mount));
            assert(content_model(fresh@) =~= content_model(content).push((key, mount@)));
            proof {
                done = done + 1;
            }
        }
        sweep(slots, rt);
        self.content = fresh;
    }

    /// Tears down the children, in order.
    pub fn unmount<N, M: ComponentModel<N>>(self, rt: &mut Runtime<N, M>)
        ensures
            final(rt)@ == old(rt)@.torn_down(Mount::Fragment(self)@),
    {
        let limit = rt.components.len();
        self.unmount_within(rt, 0, limit)
    }

    /// Tears down the children, in order, looking up components from
    /// `floor` up to `limit`.
    pub fn unmount_within<N, M: ComponentModel<N>>(
        self,
        rt: &mut Runtime<N, M>,
        floor: usize,
        limit: usize,
    )
        ensures
            final(rt)@ == old(rt)@.unmounted(Mount::Fragment(self)@, floor as nat, limit as nat),
            final(rt)@.components.len() == old(rt)@.components.len(),
        decreases limit - floor, self,
    {
        let ghost children = self.content@;
        let mut rest = reversed(self.content);
        let ghost mut done: nat = 0;
        while rest.len() > 0
            invariant
                children == self.content@,
                rest@.len() + done == children.len(),
                forall|i: int| 0 <= i < rest@.len() ==> rest@[i] == children[children.len() - 1 - i],
                rt@ == old(rt)@.unmounted_children(
                    content_model(children),
                    done,
                    floor as nat,
                    limit as nat,
                ),
                rt@.components.len() == old(rt)@.components.len(),
            decreases rest@.len(),
        {
            let (_, mount) = rest.pop().unwrap();
            assert(mount == children[done as int].1);
            mount.unmount_within(rt, floor, limit);
            proof {
                done = done + 1;
            }
        }
    }
}

} // verus!
