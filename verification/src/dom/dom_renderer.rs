//! The order of siblings on the DOM side. Every component and provider has
//! a list of what stands below it, native nodes and the lists of further
//! components, and a cursor that a re-render moves over the list. The
//! lists of one DOM parent, flattened in order, are the children of that
//! parent as the document should hold them.

use vstd::prelude::*;
use crate::renderer::native::{FactoryId, NativeId};

verus! {

/// Identifies a sibling list: its position in the arena.
pub type FactoryKey = usize;

/// One entry of a sibling list.
#[derive(Clone, Copy, PartialEq, Eq, Structural, Debug)]
pub enum DomChildren {
    /// The list of a component or provider.
    Component(FactoryKey),
    /// A DOM node.
    Dom(NativeId),
}

/// What to do to the document: put `node` among the children of `parent`,
/// before `reference`, or at the end where there is no reference.
#[derive(Clone, Copy, PartialEq, Eq, Structural, Debug)]
pub struct InsertBefore {
    pub parent: FactoryId,
    pub node: NativeId,
    pub reference: Option<NativeId>,
}

/// One sibling list: the DOM parent that its nodes are children of, its
/// entries in document order, the cursor, and the list it stands in.
pub struct DomMountFactory {
    pub parent_dom_node: FactoryId,
    pub dom_children: Vec<DomChildren>,
    pub current_index: usize,
    pub parent: Option<FactoryKey>,
}

/// The model of a sibling list.
pub struct DomMountFactoryView {
    pub parent_dom_node: FactoryId,
    pub dom_children: Seq<DomChildren>,
    pub current_index: usize,
    pub parent: Option<FactoryKey>,
}

impl View for DomMountFactory {
    type V = DomMountFactoryView;

    open spec fn view(&self) -> DomMountFactoryView {
        DomMountFactoryView {
            parent_dom_node: self.parent_dom_node,
            dom_children: self.dom_children@,
            current_index: self.current_index,
            parent: self.parent,
        }
    }
}

/// All sibling lists. A list is never moved or removed, and the list of a
/// component is always made after the list it stands in.
pub struct DomFactories {
    pub factories: Vec<DomMountFactory>,
}

/// The model of the sibling lists.
pub type Lists = Seq<DomMountFactoryView>;

impl View for DomFactories {
    type V = Lists;

    open spec fn view(&self) -> Lists {
        Seq::new(self.factories@.len(), |i: int| self.factories@[i]@)
    }
}

/// The position of the first `item` in `entries`, or their number.
pub open spec fn position_of(entries: Seq<DomChildren>, item: DomChildren) -> int
    decreases entries.len(),
{
    if entries.len() == 0 {
        0
    } else if entries[0] == item {
        0
    } else {
        1 + position_of(entries.drop_first(), item)
    }
}

/// `position_of` is where a scan from the front stops.
pub proof fn lemma_position_of(entries: Seq<DomChildren>, item: DomChildren, i: int)
    requires
        0 <= i <= entries.len(),
        forall|j: int| 0 <= j < i ==> entries[j] != item,
        i < entries.len() ==> entries[i] == item,
    ensures
        position_of(entries, item) == i,
    decreases entries.len(),
{
    if entries.len() == 0 {
    } else if i == 0 {
    } else {
        let rest = entries.drop_first();
        assert forall|j: int| 0 <= j < i - 1 implies rest[j] != item by {
            assert(rest[j] == entries[j + 1]);
        }
        lemma_position_of(rest, item, i - 1);
    }
}

/// `position_of` is the first position of the item: nothing before it is
/// the item, and it is the item if it lies within the entries.
pub proof fn lemma_position_is_first(entries: Seq<DomChildren>, item: DomChildren)
    ensures
        0 <= position_of(entries, item) <= entries.len(),
        position_of(entries, item) < entries.len() ==> entries[position_of(entries, item)] == item,
        forall|j: int| 0 <= j < position_of(entries, item) ==> entries[j] != item,
    decreases entries.len(),
{
    if entries.len() == 0 {
    } else if entries[0] == item {
    } else {
        let rest = entries.drop_first();
        lemma_position_is_first(rest, item);
        assert forall|j: int| 0 <= j < position_of(entries, item) implies entries[j] != item by {
            if j > 0 {
                assert(rest[j - 1] == entries[j]);
            }
        }
    }
}

/// The number of entries of list `list`, or nothing for a list that is
/// not there.
pub open spec fn entries_of(lists: Lists, list: FactoryKey) -> nat {
    if list < lists.len() {
        lists[list as int].dom_children.len()
    } else {
        0
    }
}

/// The first DOM node at or after entry `from` of `list`, in document
/// order: the lists of components are searched where they stand.
pub open spec fn first_dom_from(lists: Lists, list: FactoryKey, from: nat) -> Option<NativeId>
    decreases lists.len() - list, entries_of(lists, list) - from,
{
    if list >= lists.len() || from >= lists[list as int].dom_children.len() {
        None
    } else {
        match lists[list as int].dom_children[from as int] {
            DomChildren::Dom(node) => Some(node),
            DomChildren::Component(inner) => {
                let found = if list < inner < lists.len() {
                    first_dom_from(lists, inner, 0)
                } else {
                    None
                };
                if found.is_some() {
                    found
                } else {
                    first_dom_from(lists, list, from + 1)
                }
            },
        }
    }
}

/// The DOM nodes at or after entry `from` of `list`, in document order.
pub open spec fn flat_from(lists: Lists, list: FactoryKey, from: nat) -> Seq<NativeId>
    decreases lists.len() - list, entries_of(lists, list) - from,
{
    if list >= lists.len() || from >= lists[list as int].dom_children.len() {
        Seq::empty()
    } else {
        match lists[list as int].dom_children[from as int] {
            DomChildren::Dom(node) => seq![node] + flat_from(lists, list, from + 1),
            DomChildren::Component(inner) => (if list < inner < lists.len() {
                flat_from(lists, inner, 0)
            } else {
                Seq::empty()
            }) + flat_from(lists, list, from + 1),
        }
    }
}

/// The first DOM node that follows entry `from` of `list` in the document:
/// at or after the entry in the list itself, or else after the list in the
/// list it stands in, and so on up to the DOM parent.
pub open spec fn dom_at(lists: Lists, list: FactoryKey, from: nat) -> Option<NativeId>
    decreases list,
{
    let found = first_dom_from(lists, list, from);
    if found.is_some() {
        found
    } else if list >= lists.len() {
        None
    } else {
        match lists[list as int].parent {
            Some(parent) => if parent < list {
                let at = position_of(
                    lists[parent as int].dom_children,
                    DomChildren::Component(list),
                );
                if at < lists[parent as int].dom_children.len() {
                    dom_at(lists, parent, (at + 1) as nat)
                } else {
                    None
                }
            } else {
                None
            },
            None => None,
        }
    }
}

/// The first DOM node is the first of the DOM nodes.
pub proof fn lemma_first_dom_is_first_of_flat(lists: Lists, list: FactoryKey, from: nat)
    ensures
        match first_dom_from(lists, list, from) {
            Some(node) => flat_from(lists, list, from).len() > 0 && flat_from(lists, list, from)[0]
                == node,
            None => flat_from(lists, list, from).len() == 0,
        },
    decreases lists.len() - list, entries_of(lists, list) - from,
{
    if list >= lists.len() || from >= lists[list as int].dom_children.len() {
    } else {
        match lists[list as int].dom_children[from as int] {
            DomChildren::Dom(node) => {},
            DomChildren::Component(inner) => {
                if list < inner < lists.len() {
                    lemma_first_dom_is_first_of_flat(lists, inner, 0);
                }
                lemma_first_dom_is_first_of_flat(lists, list, from + 1);
            },
        }
    }
}

/// The DOM nodes that follow entry `from` of `list` in the document, in
/// order: those at or after the entry in the list itself, then those after
/// the list in the list it stands in, and so on up to the DOM parent.
pub open spec fn rest_of_document(lists: Lists, list: FactoryKey, from: nat) -> Seq<NativeId>
    decreases list,
{
    flat_from(lists, list, from) + (if list >= lists.len() {
        Seq::empty()
    } else {
        match lists[list as int].parent {
            Some(parent) => if parent < list {
                let at = position_of(
                    lists[parent as int].dom_children,
                    DomChildren::Component(list),
                );
                if at < lists[parent as int].dom_children.len() {
                    rest_of_document(lists, parent, (at + 1) as nat)
                } else {
                    Seq::empty()
                }
            } else {
                Seq::empty()
            },
            None => Seq::empty(),
        }
    })
}

/// The reference for an insertion is the first of the DOM nodes that
/// follow in the document, and there is none exactly when nothing follows.
pub proof fn lemma_dom_at_is_first_of_rest(lists: Lists, list: FactoryKey, from: nat)
    ensures
        match dom_at(lists, list, from) {
            Some(node) => rest_of_document(lists, list, from).len() > 0 && rest_of_document(
                lists,
                list,
                from,
            )[0] == node,
            None => rest_of_document(lists, list, from).len() == 0,
        },
    decreases list,
{
    lemma_first_dom_is_first_of_flat(lists, list, from);
    if first_dom_from(lists, list, from).is_none() && list < lists.len() {
        match lists[list as int].parent {
            Some(parent) => {
                if parent < list {
                    let at = position_of(
                        lists[parent as int].dom_children,
                        DomChildren::Component(list),
                    );
                    if at < lists[parent as int].dom_children.len() {
                        lemma_position_is_first(
                            lists[parent as int].dom_children,
                            DomChildren::Component(list),
                        );
                        lemma_dom_at_is_first_of_rest(lists, parent, (at + 1) as nat);
                    }
                }
            },
            None => {},
        }
    }
}

/// The DOM nodes of the entries of `list` from `from` up to `to`, in
/// document order.
pub open spec fn flat_range(lists: Lists, list: FactoryKey, from: nat, to: nat) -> Seq<NativeId>
    decreases to - from,
{
    if list >= lists.len() || from >= to || from >= lists[list as int].dom_children.len() {
        Seq::empty()
    } else {
        (match lists[list as int].dom_children[from as int] {
            DomChildren::Dom(node) => seq![node],
            DomChildren::Component(inner) => if list < inner < lists.len() {
                flat_from(lists, inner, 0)
            } else {
                Seq::empty()
            },
        }) + flat_range(lists, list, from + 1, to)
    }
}

/// Whether `list` stands in a list: it names a list before it in the
/// arena, and that list holds it.
pub open spec fn stands_in_a_list(lists: Lists, list: FactoryKey) -> bool {
    list < lists.len() && match lists[list as int].parent {
        Some(parent) => parent < list && position_of(
            lists[parent as int].dom_children,
            DomChildren::Component(list),
        ) < lists[parent as int].dom_children.len(),
        None => false,
    }
}

/// The list of a DOM parent that `list` belongs to: the list itself if it
/// stands in no list, or else the root of the list it stands in.
pub open spec fn root_of(lists: Lists, list: FactoryKey) -> FactoryKey
    decreases list,
{
    if stands_in_a_list(lists, list) {
        root_of(lists, lists[list as int].parent.unwrap())
    } else {
        list
    }
}

/// The DOM nodes that stand before entry `to` of `list` in the document.
pub open spec fn lead(lists: Lists, list: FactoryKey, to: nat) -> Seq<NativeId>
    decreases list,
{
    (if stands_in_a_list(lists, list) {
        let parent = lists[list as int].parent.unwrap();
        lead(
            lists,
            parent,
            position_of(lists[parent as int].dom_children, DomChildren::Component(list)) as nat,
        )
    } else {
        Seq::empty()
    }) + flat_range(lists, list, 0, to)
}

/// The DOM nodes of a list are those of its entries up to a place and
/// those from the place on.
pub proof fn lemma_flat_splits(lists: Lists, list: FactoryKey, from: nat, at: nat)
    requires
        from <= at,
    ensures
        flat_from(lists, list, from) == flat_range(lists, list, from, at) + flat_from(
            lists,
            list,
            at,
        ),
    decreases at - from,
{
    if list >= lists.len() || from >= lists[list as int].dom_children.len() {
        lemma_flat_is_empty_beyond(lists, list, at);
        assert(flat_range(lists, list, from, at) + flat_from(lists, list, at) =~= Seq::<
            NativeId,
        >::empty());
    } else if from == at {
        assert(flat_range(lists, list, from, at) + flat_from(lists, list, at) =~= flat_from(
            lists,
            list,
            at,
        ));
    } else {
        lemma_flat_splits(lists, list, from + 1, at);
        let head = match lists[list as int].dom_children[from as int] {
            DomChildren::Dom(node) => seq![node],
            DomChildren::Component(inner) => if list < inner < lists.len() {
                flat_from(lists, inner, 0)
            } else {
                Seq::empty()
            },
        };
        assert(flat_from(lists, list, from) == head + flat_from(lists, list, from + 1));
        assert(head + (flat_range(lists, list, from + 1, at) + flat_from(lists, list, at)) =~= (
        head + flat_range(lists, list, from + 1, at)) + flat_from(lists, list, at));
    }
}

/// Beyond the end of a list there are no DOM nodes.
pub proof fn lemma_flat_is_empty_beyond(lists: Lists, list: FactoryKey, from: nat)
    requires
        list >= lists.len() || from >= lists[list as int].dom_children.len(),
    ensures
        flat_from(lists, list, from) == Seq::<NativeId>::empty(),
{
}

/// The document splits at every place of every list: the children of the
/// DOM parent, in order, are the DOM nodes that stand before the place and
/// then those that follow it. With the law on the reference of an insertion
/// this says that a node is put before the node that the document holds
/// right after the place.
pub proof fn law_document_splits_at_every_place(lists: Lists, list: FactoryKey, at: nat)
    requires
        list < lists.len(),
    ensures
        flat_from(lists, root_of(lists, list), 0) == lead(lists, list, at) + rest_of_document(
            lists,
            list,
            at,
        ),
    decreases list,
{
    lemma_flat_splits(lists, list, 0, at);
    if stands_in_a_list(lists, list) {
        let parent = lists[list as int].parent.unwrap();
        let place = position_of(lists[parent as int].dom_children, DomChildren::Component(list));
        lemma_position_is_first(lists[parent as int].dom_children, DomChildren::Component(list));
        law_document_splits_at_every_place(lists, parent, place as nat);
        let above = if stands_in_a_list(lists, parent) {
            let grand = lists[parent as int].parent.unwrap();
            rest_of_document(
                lists,
                grand,
                (position_of(lists[grand as int].dom_children, DomChildren::Component(parent))
                    + 1) as nat,
            )
        } else {
            Seq::empty()
        };
        assert(rest_of_document(lists, parent, place as nat) == flat_from(
            lists,
            parent,
            place as nat,
        ) + above);
        assert(rest_of_document(lists, parent, (place + 1) as nat) == flat_from(
            lists,
            parent,
            (place + 1) as nat,
        ) + above);
        assert(flat_from(lists, parent, place as nat) == flat_from(lists, list, 0) + flat_from(
            lists,
            parent,
            (place + 1) as nat,
        ));
        assert(lead(lists, parent, place as nat) + ((flat_range(lists, list, 0, at) + flat_from(
            lists,
            list,
            at,
        )) + flat_from(lists, parent, (place + 1) as nat) + above) =~= (lead(
            lists,
            parent,
            place as nat,
        ) + flat_range(lists, list, 0, at)) + (flat_from(lists, list, at) + (flat_from(
            lists,
            parent,
            (place + 1) as nat,
        ) + above)));
    } else {
        assert(rest_of_document(lists, list, at) =~= flat_from(lists, list, at));
        assert(lead(lists, list, at) =~= flat_range(lists, list, 0, at));
    }
}

/// Whether `entry` can be taken out of `list`: it stands there.
pub open spec fn can_be_removed(lists: Lists, list: FactoryKey, entry: DomChildren) -> bool {
    list < lists.len() ==> position_of(lists[list as int].dom_children, entry)
        < lists[list as int].dom_children.len()
}

/// Whether `list` can be taken out of the list it stands in: it names none,
/// or the list that it names holds it.
pub open spec fn can_be_unmounted(lists: Lists, list: FactoryKey) -> bool {
    list < lists.len() ==> match lists[list as int].parent {
        Some(parent) => can_be_removed(lists, parent, DomChildren::Component(list)),
        None => true,
    }
}

/// The lists after `entry` was taken out of `list`: the cursor stays on the
/// entry it was on.
pub open spec fn entry_removed(lists: Lists, list: FactoryKey, entry: DomChildren) -> Lists {
    if list >= lists.len() {
        lists
    } else {
        let old = lists[list as int];
        let at = position_of(old.dom_children, entry);
        lists.update(
            list as int,
            DomMountFactoryView {
                dom_children: old.dom_children.remove(at),
                current_index: if at < old.current_index {
                    (old.current_index - 1) as usize
                } else {
                    old.current_index
                },
                ..old
            },
        )
    }
}

/// Whether `entry` can be put at position `index` of `list`: the position
/// is in the list or at its end, and the entry, if the list holds it
/// already, stands behind that position. A scan places every entry once,
/// so that none ever has to move back.
pub open spec fn can_be_placed(lists: Lists, list: FactoryKey, index: usize, entry: DomChildren)
    -> bool {
    list < lists.len() ==> {
        let entries = lists[list as int].dom_children;
        if position_of(entries, entry) < entries.len() {
            index < position_of(entries, entry)
        } else {
            index <= entries.len()
        }
    }
}

/// The lists after `entry` was put at position `index` of `list`: an entry
/// that stood further back in the list has moved there.
pub open spec fn entry_placed(lists: Lists, list: FactoryKey, index: usize, entry: DomChildren)
    -> Lists {
    if list >= lists.len() {
        lists
    } else {
        let old = lists[list as int];
        let at = position_of(old.dom_children, entry);
        let rest = if at < old.dom_children.len() {
            old.dom_children.remove(at)
        } else {
            old.dom_children
        };
        lists.update(
            list as int,
            DomMountFactoryView { dom_children: rest.insert(index as int, entry), ..old },
        )
    }
}

/// An entry that was placed stands in the list, at its place, and the list
/// is another than before.
pub proof fn lemma_placed_is_there(lists: Lists, list: FactoryKey, index: usize, entry: DomChildren)
    requires
        list < lists.len(),
        can_be_placed(lists, list, index, entry),
    ensures
        ({
            let after = entry_placed(lists, list, index, entry)[list as int].dom_children;
            &&& after.len() <= lists[list as int].dom_children.len() + 1
            &&& index < after.len()
            &&& after[index as int] == entry
            &&& position_of(after, entry) < after.len()
            &&& entry_placed(lists, list, index, entry).len() == lists.len()
            &&& after != lists[list as int].dom_children
        }),
{
    let old = lists[list as int];
    let at = position_of(old.dom_children, entry);
    lemma_position_is_first(old.dom_children, entry);
    let after = entry_placed(lists, list, index, entry)[list as int].dom_children;
    lemma_position_is_first(after, entry);
    let rest = if at < old.dom_children.len() {
        old.dom_children.remove(at)
    } else {
        old.dom_children
    };
    assert(after == rest.insert(index as int, entry));
    assert(after[index as int] == entry);
    if at < old.dom_children.len() {
        assert(old.dom_children[index as int] != entry);
    }
}

/// Whether `entry` has to be put at the cursor of `list`: it does not
/// stand there.
pub open spec fn out_of_place(lists: Lists, list: FactoryKey, entry: DomChildren) -> bool {
    list < lists.len() && !(lists[list as int].current_index
        < lists[list as int].dom_children.len()
        && lists[list as int].dom_children[lists[list as int].current_index as int] == entry)
}

/// The lists after the cursor of `list` moved past the entry it is on.
pub open spec fn cursor_advanced(lists: Lists, list: FactoryKey) -> Lists {
    if list >= lists.len() {
        lists
    } else {
        let old = lists[list as int];
        lists.update(
            list as int,
            DomMountFactoryView {
                current_index: if old.current_index < old.dom_children.len() {
                    (old.current_index + 1) as usize
                } else {
                    old.dom_children.len() as usize
                },
                ..old
            },
        )
    }
}

/// Whether `entry` can be seen to at the cursor of `list`: it stands there,
/// or it can be put there.
pub open spec fn can_be_sequenced(lists: Lists, list: FactoryKey, entry: DomChildren) -> bool {
    out_of_place(lists, list, entry) ==> can_be_placed(
        lists,
        list,
        lists[list as int].current_index,
        entry,
    )
}

/// The lists after `entry` was seen to at the cursor of `list`: it stands
/// there, and the cursor has moved past it.
pub open spec fn entry_sequenced(lists: Lists, list: FactoryKey, entry: DomChildren) -> Lists {
    if list >= lists.len() {
        lists
    } else if out_of_place(lists, list, entry) {
        cursor_advanced(
            entry_placed(lists, list, lists[list as int].current_index, entry),
            list,
        )
    } else {
        cursor_advanced(lists, list)
    }
}

/// The first DOM node that follows `entry` of `list` in the document, or
/// nothing if the entry is the last in its DOM parent.
pub open spec fn follower(lists: Lists, list: FactoryKey, entry: DomChildren) -> Option<NativeId> {
    dom_at(lists, list, (position_of(lists[list as int].dom_children, entry) + 1) as nat)
}

/// What has to happen in the document when the DOM node `node` is put at
/// position `index` of `list`: the node goes before the first DOM node that
/// follows its new place. Nothing happens for a list that does not exist.
pub open spec fn node_move(lists: Lists, list: FactoryKey, index: usize, node: NativeId) -> Option<
    InsertBefore,
> {
    let after = entry_placed(lists, list, index, DomChildren::Dom(node));
    if list < lists.len() {
        Some(
            InsertBefore {
                parent: lists[list as int].parent_dom_node,
                node,
                reference: follower(after, list, DomChildren::Dom(node)),
            },
        )
    } else {
        None
    }
}

/// What has to happen in the document when the list `factory` is put at
/// position `index` of `list`: every DOM node of `factory` goes, in order,
/// before the first DOM node that follows the new place of `factory`.
/// Nothing happens for a list that does not exist.
pub open spec fn list_move(lists: Lists, list: FactoryKey, index: usize, factory: FactoryKey)
    -> Seq<InsertBefore> {
    let after = entry_placed(lists, list, index, DomChildren::Component(factory));
    if list < lists.len() {
        moves(
            lists[list as int].parent_dom_node,
            flat_from(after, factory, 0),
            follower(after, list, DomChildren::Component(factory)),
        )
    } else {
        Seq::empty()
    }
}

/// The instructions that move `nodes` in front of `reference`, in order.
pub open spec fn moves(parent: FactoryId, nodes: Seq<NativeId>, reference: Option<NativeId>) -> Seq<
    InsertBefore,
> {
    Seq::new(nodes.len(), |i: int| InsertBefore { parent, node: nodes[i], reference })
}

impl DomFactories {
    /// No lists.
    pub fn new() -> (r: DomFactories)
        ensures
            r@ == Seq::<DomMountFactoryView>::empty(),
    {
        let r = DomFactories { factories: Vec::new() };
        assert(r@ =~= Seq::<DomMountFactoryView>::empty());
        r
    }

    /// The number of lists.
    pub fn len(&self) -> (n: usize)
        ensures
            n == self@.len(),
    {
        self.factories.len()
    }

    /// A new, empty list for the children of the DOM parent
    /// `parent_dom_node`.
    pub fn add_root(&mut self, parent_dom_node: FactoryId) -> (key: FactoryKey)
        ensures
            key == old(self)@.len(),
            final(self)@ == old(self)@.push(
                DomMountFactoryView {
                    parent_dom_node,
                    dom_children: Seq::empty(),
                    current_index: 0,
                    parent: None,
                },
            ),
    {
        let key = self.factories.len();
        self.factories.push(
            DomMountFactory {
                parent_dom_node,
                dom_children: Vec::new(),
                current_index: 0,
                parent: None,
            },
        );
        assert(self@ =~= old(self)@.push(
            DomMountFactoryView {
                parent_dom_node,
                dom_children: Seq::empty(),
                current_index: 0,
                parent: None,
            },
        ));
        key
    }

    /// Puts the cursor of `list` at the start.
    pub fn reset_scanner(&mut self, list: FactoryKey)
        ensures
            final(self)@ == (if list < old(self)@.len() {
                old(self)@.update(
                    list as int,
                    DomMountFactoryView { current_index: 0, ..old(self)@[list as int] },
                )
            } else {
                old(self)@
            }),
    {
        if list < self.factories.len() {
            self.factories[list].current_index = 0;
            assert(self@ =~= old(self)@.update(
                list as int,
                DomMountFactoryView { current_index: 0, ..old(self)@[list as int] },
            ));
        }
    }

    /// The position of the first `entry` in `list`, or the number of its
    /// entries.
    pub fn position(&self, list: FactoryKey, entry: DomChildren) -> (at: usize)
        requires
            list < self@.len(),
        ensures
            at == position_of(self@[list as int].dom_children, entry),
            at <= self@[list as int].dom_children.len(),
    {
        let mut at: usize = 0;
        while at < self.factories[list].dom_children.len()
            && self.factories[list].dom_children[at] != entry
            invariant
                list < self.factories@.len(),
                at <= self.factories@[list as int].dom_children@.len(),
                forall|j: int| 0 <= j < at ==> self.factories@[list as int].dom_children@[j] != entry,
            decreases self.factories@[list as int].dom_children@.len() - at,
        {
            at += 1;
        }
        proof {
            lemma_position_of(self@[list as int].dom_children, entry, at as int);
        }
        at
    }

    /// Whether `entry` can be taken out of `list`.
    pub fn can_remove(&self, list: FactoryKey, entry: DomChildren) -> (r: bool)
        ensures
            r == can_be_removed(self@, list, entry),
    {
        if list >= self.factories.len() {
            return true;
        }
        let at = self.position(list, entry);
        at < self.factories[list].dom_children.len()
    }

    /// Whether `list` can be taken out of the list it stands in.
    pub fn can_unmount(&self, list: FactoryKey) -> (r: bool)
        ensures
            r == can_be_unmounted(self@, list),
    {
        if list >= self.factories.len() {
            return true;
        }
        match self.factories[list].parent {
            Some(parent) => self.can_remove(parent, DomChildren::Component(list)),
            None => true,
        }
    }

    fn remove_entry(&mut self, list: FactoryKey, entry: DomChildren)
        requires
            can_be_removed(old(self)@, list, entry),
        ensures
            final(self)@ == entry_removed(old(self)@, list, entry),
    {
        if list >= self.factories.len() {
            return ;
        }
        let at = self.position(list, entry);
        self.factories[list].dom_children.remove(at);
        if at < self.factories[list].current_index {
            self.factories[list].current_index = self.factories[list].current_index - 1;
        }
        assert(self@ =~= entry_removed(old(self)@, list, entry));
    }

    /// Takes the DOM node `dom_node` out of `list`, in which it stands.
    pub fn remove_dom_child(&mut self, list: FactoryKey, dom_node: NativeId)
        requires
            can_be_removed(old(self)@, list, DomChildren::Dom(dom_node)),
        ensures
            final(self)@ == entry_removed(old(self)@, list, DomChildren::Dom(dom_node)),
    {
        self.remove_entry(list, DomChildren::Dom(dom_node))
    }

    /// Takes the list `dom_factory` out of `list`, in which it stands.
    pub fn remove_component_child(&mut self, list: FactoryKey, dom_factory: FactoryKey)
        requires
            can_be_removed(old(self)@, list, DomChildren::Component(dom_factory)),
        ensures
            final(self)@ == entry_removed(old(self)@, list, DomChildren::Component(dom_factory)),
    {
        self.remove_entry(list, DomChildren::Component(dom_factory))
    }

    /// The first DOM node at or after entry `from` of `list`.
    pub fn get_first_dom_from(&self, list: FactoryKey, from: usize) -> (r: Option<NativeId>)
        ensures
            r == first_dom_from(self@, list, from as nat),
        decreases self@.len() - list,
    {
        if list >= self.factories.len() {
            return None;
        }
        let mut i = from;
        while i < self.factories[list].dom_children.len()
            invariant
                list < self.factories@.len(),
                first_dom_from(self@, list, i as nat) == first_dom_from(self@, list, from as nat),
            decreases self.factories@[list as int].dom_children@.len() - i,
        {
            match self.factories[list].dom_children[i] {
                DomChildren::Dom(node) => {
                    return Some(node);
                },
                DomChildren::Component(inner) => {
                    if list < inner && inner < self.factories.len() {
                        match self.get_first_dom_from(inner, 0) {
                            Some(node) => {
                                return Some(node);
                            },
                            None => {},
                        }
                    }
                },
            }
            i += 1;
        }
        None
    }

    /// The first DOM node of `list`.
    pub fn get_first_dom(&self, list: FactoryKey) -> (r: Option<NativeId>)
        ensures
            r == first_dom_from(self@, list, 0),
    {
        self.get_first_dom_from(list, 0)
    }

    /// The first DOM node that follows entry `index` of `list` in the
    /// document.
    pub fn get_dom_at(&self, list: FactoryKey, index: usize) -> (r: Option<NativeId>)
        ensures
            r == dom_at(self@, list, index as nat),
    {
        let mut current = list;
        let mut from = index;
        loop
            invariant
                dom_at(self@, current, from as nat) == dom_at(self@, list, index as nat),
            decreases current,
        {
            match self.get_first_dom_from(current, from) {
                Some(node) => {
                    return Some(node);
                },
                None => {},
            }
            if current >= self.factories.len() {
                return None;
            }
            match self.factories[current].parent {
                Some(parent) => {
                    if parent < current {
                        let at = self.position(parent, DomChildren::Component(current));
                        if at < self.factories[parent].dom_children.len() {
                            from = at + 1;
                            current = parent;
                        } else {
                            return None;
                        }
                    } else {
                        return None;
                    }
                },
                None => {
                    return None;
                },
            }
        }
    }

    /// The first DOM node that follows the list `child` in the document;
    /// `child` stands in `list`.
    pub fn get_first_dom_after(&self, list: FactoryKey, child: FactoryKey) -> (r: Option<NativeId>)
        requires
            list < self@.len(),
            can_be_removed(self@, list, DomChildren::Component(child)),
        ensures
            r == follower(self@, list, DomChildren::Component(child)),
    {
        let at = self.position(list, DomChildren::Component(child));
        let entries = self.factories[list].dom_children.len();
        assert(at < entries);
        self.get_dom_at(list, at + 1)
    }

    /// Whether `entry` can be put at position `index` of `list`.
    pub fn can_place(&self, list: FactoryKey, index: usize, entry: DomChildren) -> (r: bool)
        ensures
            r == can_be_placed(self@, list, index, entry),
    {
        if list >= self.factories.len() {
            return true;
        }
        let at = self.position(list, entry);
        if at < self.factories[list].dom_children.len() {
            index < at
        } else {
            index <= self.factories[list].dom_children.len()
        }
    }

    /// Whether `entry` can be seen to at the cursor of `list`.
    pub fn can_sequence(&self, list: FactoryKey, entry: DomChildren) -> (r: bool)
        ensures
            r == can_be_sequenced(self@, list, entry),
    {
        if self.is_out_of_place(list, entry) {
            let index = self.cursor(list);
            self.can_place(list, index, entry)
        } else {
            true
        }
    }

    fn place_entry(&mut self, list: FactoryKey, index: usize, entry: DomChildren) -> (placed: bool)
        requires
            can_be_placed(old(self)@, list, index, entry),
        ensures
            final(self)@ == entry_placed(old(self)@, list, index, entry),
            placed == (list < old(self)@.len()),
    {
        if list >= self.factories.len() {
            return false;
        }
        let at = self.position(list, entry);
        if at < self.factories[list].dom_children.len() {
            self.factories[list].dom_children.remove(at);
        }
        self.factories[list].dom_children.insert(index, entry);
        assert(self@ =~= entry_placed(old(self)@, list, index, entry));
        true
    }

    fn advance(&mut self, list: FactoryKey)
        ensures
            final(self)@ == cursor_advanced(old(self)@, list),
    {
        if list < self.factories.len() {
            if self.factories[list].current_index < self.factories[list].dom_children.len() {
                self.factories[list].current_index = self.factories[list].current_index + 1;
            } else {
                self.factories[list].current_index = self.factories[list].dom_children.len();
            }
            assert(self@ =~= cursor_advanced(old(self)@, list));
        }
    }

    /// Puts the DOM node `dom_node` at position `index` of `list` and says
    /// where it goes in the document: before the first DOM node that follows
    /// its new place. A node that stands in the list already has to stand
    /// behind `index`. Nothing happens for a list that does not exist.
    pub fn insert_at(&mut self, list: FactoryKey, index: usize, dom_node: NativeId) -> (r: Option<
        InsertBefore,
    >)
        requires
            can_be_placed(old(self)@, list, index, DomChildren::Dom(dom_node)),
        ensures
            final(self)@ == entry_placed(old(self)@, list, index, DomChildren::Dom(dom_node)),
            r == node_move(old(self)@, list, index, dom_node),
    {
        if !self.place_entry(list, index, DomChildren::Dom(dom_node)) {
            return None;
        }
        let at = self.position(list, DomChildren::Dom(dom_node));
        proof {
            lemma_placed_is_there(old(self)@, list, index, DomChildren::Dom(dom_node));
            assert(self@[list as int].dom_children.len() == self.factories@[list as int].dom_children@.len());
        }
        let entries = self.factories[list].dom_children.len();
        assert(at < entries);
        let reference = self.get_dom_at(list, at + 1);
        Some(InsertBefore { parent: self.factories[list].parent_dom_node, node: dom_node, reference })
    }

    fn collect_from(&self, list: FactoryKey, from: usize, out: &mut Vec<NativeId>)
        ensures
            final(out)@ == old(out)@ + flat_from(self@, list, from as nat),
        decreases self@.len() - list,
    {
        if list >= self.factories.len() {
            assert(old(out)@ + flat_from(self@, list, from as nat) =~= old(out)@);
            return ;
        }
        let mut i = from;
        while i < self.factories[list].dom_children.len()
            invariant
                list < self.factories@.len(),
                out@ + flat_from(self@, list, i as nat) == old(out)@ + flat_from(
                    self@,
                    list,
                    from as nat,
                ),
            decreases self.factories@[list as int].dom_children@.len() - i,
        {
            let ghost before = out@;
            let ghost rest = flat_from(self@, list, (i + 1) as nat);
            match self.factories[list].dom_children[i] {
                DomChildren::Dom(node) => {
                    out.push(node);
                    assert(out@ + rest =~= before + (seq![node] + rest));
                },
                DomChildren::Component(inner) => {
                    if list < inner && inner < self.factories.len() {
                        self.collect_from(inner, 0, out);
                        assert(out@ + rest =~= before + (flat_from(self@, inner, 0) + rest));
                    } else {
                        assert(out@ + rest =~= before + (Seq::<NativeId>::empty() + rest));
                    }
                },
            }
            i += 1;
        }
        assert(out@ + flat_from(self@, list, i as nat) =~= out@);
    }

    /// The DOM nodes of `list`, in document order.
    pub fn collect_dom(&self, list: FactoryKey) -> (nodes: Vec<NativeId>)
        ensures
            nodes@ == flat_from(self@, list, 0),
    {
        let mut nodes: Vec<NativeId> = Vec::new();
        self.collect_from(list, 0, &mut nodes);
        assert(Seq::<NativeId>::empty() + flat_from(self@, list, 0) =~= flat_from(self@, list, 0));
        nodes
    }

    /// Puts the list `dom_factory` at position `index` of `list` and says
    /// where its DOM nodes go in the document: all of them, in their order,
    /// before the first DOM node that follows the list's new place. A list
    /// that stands in `list` already has to stand behind `index`. Nothing
    /// happens for a list that does not exist.
    pub fn insert_dom_factory_at(&mut self, list: FactoryKey, index: usize, dom_factory: FactoryKey)
        -> (r: Vec<InsertBefore>)
        requires
            can_be_placed(old(self)@, list, index, DomChildren::Component(dom_factory)),
        ensures
            final(self)@ == entry_placed(
                old(self)@,
                list,
                index,
                DomChildren::Component(dom_factory),
            ),
            r@ == list_move(old(self)@, list, index, dom_factory),
    {
        let mut commands: Vec<InsertBefore> = Vec::new();
        if !self.place_entry(list, index, DomChildren::Component(dom_factory)) {
            return commands;
        }
        let at = self.position(list, DomChildren::Component(dom_factory));
        proof {
            lemma_placed_is_there(old(self)@, list, index, DomChildren::Component(dom_factory));
        }
        let entries = self.factories[list].dom_children.len();
        assert(at < entries);
        let reference = self.get_dom_at(list, at + 1);
        let parent = self.factories[list].parent_dom_node;
        let nodes = self.collect_dom(dom_factory);
        let mut i: usize = 0;
        while i < nodes.len()
            invariant
                i <= nodes@.len(),
                commands@ == moves(parent, nodes@.take(i as int), reference),
            decreases nodes@.len() - i,
        {
            commands.push(InsertBefore { parent, node: nodes[i], reference });
            assert(commands@ =~= moves(parent, nodes@.take(i + 1), reference));
            i += 1;
        }
        assert(nodes@.take(i as int) =~= nodes@);
        commands
    }

    /// Whether `entry` does not stand at the cursor of `list`.
    pub fn is_out_of_place(&self, list: FactoryKey, entry: DomChildren) -> (r: bool)
        ensures
            r == out_of_place(self@, list, entry),
    {
        list < self.factories.len() && !(self.factories[list].current_index
            < self.factories[list].dom_children.len()
            && self.factories[list].dom_children[self.factories[list].current_index] == entry)
    }

    /// The cursor of `list`.
    pub fn cursor(&self, list: FactoryKey) -> (r: usize)
        requires
            list < self@.len(),
        ensures
            r == self@[list as int].current_index,
    {
        self.factories[list].current_index
    }

    /// Sees to it that the list `factory` stands at the cursor of `list`,
    /// moves the cursor on, and says what has to move in the document. The
    /// list may not stand before the cursor: the scan has passed it.
    pub fn maybe_update_component_mount_sequence(&mut self, list: FactoryKey, factory: FactoryKey)
        -> (r: Vec<InsertBefore>)
        requires
            can_be_sequenced(old(self)@, list, DomChildren::Component(factory)),
        ensures
            final(self)@ == entry_sequenced(old(self)@, list, DomChildren::Component(factory)),
            r@ == (if out_of_place(old(self)@, list, DomChildren::Component(factory)) {
                list_move(old(self)@, list, old(self)@[list as int].current_index, factory)
            } else {
                Seq::empty()
            }),
    {
        let mut commands: Vec<InsertBefore> = Vec::new();
        if list < self.factories.len() {
            if self.is_out_of_place(list, DomChildren::Component(factory)) {
                let index = self.cursor(list);
                commands = self.insert_dom_factory_at(list, index, factory);
            }
            self.advance(list);
        }
        commands
    }

    /// Sees to it that the DOM node `mount` stands at the cursor of `list`,
    /// moves the cursor on, and says what has to move in the document. The
    /// node may not stand before the cursor: the scan has passed it.
    pub fn maybe_update_native_mount_sequence(&mut self, list: FactoryKey, mount: NativeId) -> (r:
        Option<InsertBefore>)
        requires
            can_be_sequenced(old(self)@, list, DomChildren::Dom(mount)),
        ensures
            final(self)@ == entry_sequenced(old(self)@, list, DomChildren::Dom(mount)),
            r == (if out_of_place(old(self)@, list, DomChildren::Dom(mount)) {
                node_move(old(self)@, list, old(self)@[list as int].current_index, mount)
            } else {
                None
            }),
    {
        let mut command: Option<InsertBefore> = None;
        if list < self.factories.len() {
            if self.is_out_of_place(list, DomChildren::Dom(mount)) {
                let index = self.cursor(list);
                command = self.insert_at(list, index, mount);
            }
            self.advance(list);
        }
        command
    }

    /// Puts the new DOM node `mount` at the cursor of `list`, moves the
    /// cursor on, and says where the node goes in the document.
    pub fn make_native_mount(&mut self, list: FactoryKey, mount: NativeId) -> (r: Option<
        InsertBefore,
    >)
        requires
            can_be_placed(
                old(self)@,
                list,
                old(self)@[list as int].current_index,
                DomChildren::Dom(mount),
            ),
        ensures
            final(self)@ == cursor_advanced(
                entry_placed(
                    old(self)@,
                    list,
                    old(self)@[list as int].current_index,
                    DomChildren::Dom(mount),
                ),
                list,
            ),
            r == node_move(old(self)@, list, old(self)@[list as int].current_index, mount),
    {
        let mut command: Option<InsertBefore> = None;
        if list < self.factories.len() {
            let index = self.cursor(list);
            command = self.insert_at(list, index, mount);
            self.advance(list);
        }
        command
    }

    /// A new, empty list for a component or provider that stands in `list`,
    /// put at the cursor of `list`; the cursor moves on.
    pub fn component_native_mount_factory(&mut self, list: FactoryKey) -> (key: FactoryKey)
        requires
            list < old(self)@.len(),
            can_be_placed(
                old(self)@,
                list,
                old(self)@[list as int].current_index,
                DomChildren::Component(old(self)@.len() as usize),
            ),
        ensures
            key == old(self)@.len(),
            final(self)@ == cursor_advanced(
                entry_placed(
                    old(self)@.push(
                        DomMountFactoryView {
                            parent_dom_node: old(self)@[list as int].parent_dom_node,
                            dom_children: Seq::empty(),
                            current_index: 0,
                            parent: Some(list),
                        },
                    ),
                    list,
                    old(self)@[list as int].current_index,
                    DomChildren::Component(key),
                ),
                list,
            ),
    {
        let key = self.factories.len();
        let parent_dom_node = self.factories[list].parent_dom_node;
        self.factories.push(
            DomMountFactory {
                parent_dom_node,
                dom_children: Vec::new(),
                current_index: 0,
                parent: Some(list),
            },
        );
        assert(self@ =~= old(self)@.push(
            DomMountFactoryView {
                parent_dom_node,
                dom_children: Seq::empty(),
                current_index: 0,
                parent: Some(list),
            },
        ));
        let index = self.cursor(list);
        let _ = self.insert_dom_factory_at(list, index, key);
        self.advance(list);
        key
    }

    /// Takes `list` out of the list it stands in.
    pub fn on_unmount(&mut self, list: FactoryKey)
        requires
            can_be_unmounted(old(self)@, list),
        ensures
            final(self)@ == (if list < old(self)@.len() && old(self)@[list as int].parent.is_some() {
                entry_removed(
                    old(self)@,
                    old(self)@[list as int].parent.unwrap(),
                    DomChildren::Component(list),
                )
            } else {
                old(self)@
            }),
    {
        if list < self.factories.len() {
            match self.factories[list].parent {
                Some(parent) => self.remove_component_child(parent, list),
                None => {},
            }
        }
    }
}

} // verus!
