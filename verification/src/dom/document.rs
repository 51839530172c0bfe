//! The document that the sibling lists stand for. The children of a DOM
//! parent are the DOM nodes of its list, with the nodes of every list that
//! stands in it at the place where that list stands. A change to one list
//! changes the document in the stretch of that list and nowhere else.

use vstd::prelude::*;
use crate::dom::dom_renderer::{
    entry_placed, flat_from, flat_range, law_document_splits_at_every_place, lead,
    lemma_dom_at_is_first_of_rest, lemma_flat_splits, lemma_position_is_first, lemma_position_of,
    node_move, position_of, rest_of_document, root_of, stands_in_a_list, DomChildren,
    DomMountFactoryView, FactoryKey, InsertBefore, Lists,
};
use crate::renderer::native::NativeId;

verus! {

/// Whether the lists are nested properly: every list that an entry names
/// knows the list of the entry as the list it stands in, and no list names
/// another twice.
pub open spec fn nested(lists: Lists) -> bool {
    forall|q: int, k: int|
        0 <= q < lists.len() && 0 <= k < lists[q].dom_children.len() ==> match #[trigger] lists[q].dom_children[k] {
            DomChildren::Component(inner) => {
                &&& inner < lists.len() ==> lists[inner as int].parent == Some(q as usize)
                &&& position_of(lists[q].dom_children, DomChildren::Component(inner)) == k
            },
            DomChildren::Dom(_) => true,
        }
}

/// The DOM nodes that follow the last entry of `list` in the document.
pub open spec fn beyond(lists: Lists, list: FactoryKey) -> Seq<NativeId> {
    if stands_in_a_list(lists, list) {
        let parent = lists[list as int].parent.unwrap();
        rest_of_document(
            lists,
            parent,
            (position_of(lists[parent as int].dom_children, DomChildren::Component(list))
                + 1) as nat,
        )
    } else {
        Seq::empty()
    }
}

/// Whether `outer` is `list` or a list that `list` stands in, directly or
/// through further lists.
pub open spec fn holds(lists: Lists, outer: FactoryKey, list: FactoryKey) -> bool
    decreases list,
{
    outer == list || (stands_in_a_list(lists, list) && holds(
        lists,
        outer,
        lists[list as int].parent.unwrap(),
    ))
}

/// Whether `after` is `lists` with other entries in `list` and nothing
/// else changed.
pub open spec fn differs_at(lists: Lists, after: Lists, list: FactoryKey) -> bool {
    &&& after.len() == lists.len()
    &&& list < lists.len()
    &&& after[list as int].parent == lists[list as int].parent
    &&& forall|q: int| 0 <= q < lists.len() && q != list ==> #[trigger] after[q] == lists[q]
}

/// A list that holds another stands before it in the arena, or is it.
pub proof fn lemma_holds_from_above(lists: Lists, outer: FactoryKey, list: FactoryKey)
    requires
        holds(lists, outer, list),
    ensures
        outer <= list,
    decreases list,
{
    if outer != list {
        lemma_holds_from_above(lists, outer, lists[list as int].parent.unwrap());
    }
}

/// The list in which a holder of a list stands holds that list too.
pub proof fn lemma_holder_of_holder(lists: Lists, outer: FactoryKey, list: FactoryKey)
    requires
        holds(lists, outer, list),
        stands_in_a_list(lists, outer),
    ensures
        holds(lists, lists[outer as int].parent.unwrap(), list),
    decreases list,
{
    if outer != list {
        lemma_holder_of_holder(lists, outer, lists[list as int].parent.unwrap());
    } else {
        let parent = lists[list as int].parent.unwrap();
        assert(holds(lists, parent, parent));
    }
}

/// Of the lists that stand in one list at most one holds a given list.
pub proof fn lemma_one_way_down(
    lists: Lists,
    first: FactoryKey,
    second: FactoryKey,
    list: FactoryKey,
)
    requires
        holds(lists, first, list),
        holds(lists, second, list),
        stands_in_a_list(lists, first),
        stands_in_a_list(lists, second),
        lists[first as int].parent == lists[second as int].parent,
    ensures
        first == second,
    decreases list,
{
    if first == list && second != list {
        lemma_holds_from_above(lists, second, lists[list as int].parent.unwrap());
    } else if second == list && first != list {
        lemma_holds_from_above(lists, first, lists[list as int].parent.unwrap());
    } else if first != list && second != list {
        lemma_one_way_down(lists, first, second, lists[list as int].parent.unwrap());
    }
}

/// A list that does not hold the changed list has the DOM nodes it had.
pub proof fn lemma_untouched_list(
    lists: Lists,
    after: Lists,
    list: FactoryKey,
    other: FactoryKey,
    from: nat,
)
    requires
        nested(lists),
        differs_at(lists, after, list),
        !holds(lists, other, list),
    ensures
        flat_from(after, other, from) == flat_from(lists, other, from),
    decreases
            lists.len() - other,
            (if other < lists.len() {
                lists[other as int].dom_children.len() - from
            } else {
                0
            }),
{
    if other >= lists.len() || from >= lists[other as int].dom_children.len() {
    } else {
        lemma_untouched_list(lists, after, list, other, from + 1);
        match lists[other as int].dom_children[from as int] {
            DomChildren::Dom(_) => {},
            DomChildren::Component(inner) => {
                if other < inner < lists.len() {
                    if holds(lists, inner, list) {
                        lemma_position_is_first(
                            lists[other as int].dom_children,
                            DomChildren::Component(inner),
                        );
                        assert(stands_in_a_list(lists, inner));
                        lemma_holder_of_holder(lists, inner, list);
                    }
                    lemma_untouched_list(lists, after, list, inner, 0);
                }
            },
        }
    }
}

/// The entries of a list from one place up to another have the DOM nodes
/// they had if none of the lists among them holds the changed list.
pub proof fn lemma_untouched_range(
    lists: Lists,
    after: Lists,
    list: FactoryKey,
    other: FactoryKey,
    from: nat,
    to: nat,
)
    requires
        nested(lists),
        differs_at(lists, after, list),
        other != list,
        other < lists.len(),
        to <= lists[other as int].dom_children.len(),
        forall|k: int|
            from <= k < to ==> match #[trigger] lists[other as int].dom_children[k] {
                DomChildren::Component(inner) => other < inner ==> !holds(lists, inner, list),
                DomChildren::Dom(_) => true,
            },
    ensures
        flat_range(after, other, from, to) == flat_range(lists, other, from, to),
    decreases to - from,
{
    if from < to {
        lemma_untouched_range(lists, after, list, other, from + 1, to);
        match lists[other as int].dom_children[from as int] {
            DomChildren::Dom(_) => {},
            DomChildren::Component(inner) => {
                if other < inner < lists.len() {
                    lemma_untouched_list(lists, after, list, inner, 0);
                }
            },
        }
    }
}

/// No list that stands in the list of a holder of the changed list holds
/// the changed list, but the holder itself.
pub proof fn lemma_siblings_do_not_hold(
    lists: Lists,
    list: FactoryKey,
    holder: FactoryKey,
    k: int,
)
    requires
        nested(lists),
        holds(lists, holder, list),
        stands_in_a_list(lists, holder),
        0 <= k < lists[lists[holder as int].parent.unwrap() as int].dom_children.len(),
        lists[lists[holder as int].parent.unwrap() as int].dom_children[k]
            != DomChildren::Component(holder),
    ensures
        match lists[lists[holder as int].parent.unwrap() as int].dom_children[k] {
            DomChildren::Component(inner) => lists[holder as int].parent.unwrap() < inner
                ==> !holds(lists, inner, list),
            DomChildren::Dom(_) => true,
        },
{
    let parent = lists[holder as int].parent.unwrap();
    match lists[parent as int].dom_children[k] {
        DomChildren::Dom(_) => {},
        DomChildren::Component(inner) => {
            if parent < inner && holds(lists, inner, list) {
                lemma_holds_from_above(lists, inner, list);
                lemma_position_is_first(
                    lists[parent as int].dom_children,
                    DomChildren::Component(inner),
                );
                assert(lists[inner as int].parent == Some(parent));
                assert(stands_in_a_list(lists, inner));
                lemma_one_way_down(lists, inner, holder, list);
            }
        },
    }
}

/// What follows a place in the document is what follows it in its list and
/// then what follows the list.
pub proof fn lemma_rest_is_list_then_beyond(lists: Lists, list: FactoryKey, from: nat)
    ensures
        rest_of_document(lists, list, from) == flat_from(lists, list, from) + beyond(lists, list),
{
}

/// Around a holder of the changed list nothing changes: the holder stands
/// where it stood, in the list of the same DOM parent, and the document
/// before the holder and after it is what it was.
pub proof fn lemma_around_a_holder(lists: Lists, after: Lists, list: FactoryKey, holder: FactoryKey)
    requires
        nested(lists),
        differs_at(lists, after, list),
        holds(lists, holder, list),
    ensures
        stands_in_a_list(after, holder) == stands_in_a_list(lists, holder),
        root_of(after, holder) == root_of(lists, holder),
        lead(after, holder, 0) == lead(lists, holder, 0),
        beyond(after, holder) == beyond(lists, holder),
    decreases holder,
{
    lemma_holds_from_above(lists, holder, list);
    if stands_in_a_list(lists, holder) {
        let parent = lists[holder as int].parent.unwrap();
        let entries = lists[parent as int].dom_children;
        let place = position_of(entries, DomChildren::Component(holder));
        assert(after[parent as int] == lists[parent as int]);
        assert(stands_in_a_list(after, holder));
        lemma_holder_of_holder(lists, holder, list);
        lemma_around_a_holder(lists, after, list, parent);
        lemma_position_is_first(entries, DomChildren::Component(holder));
        // before the holder
        assert forall|k: int| 0 <= k < place implies match #[trigger] entries[k] {
            DomChildren::Component(inner) => parent < inner ==> !holds(lists, inner, list),
            DomChildren::Dom(_) => true,
        } by {
            lemma_siblings_do_not_hold(lists, list, holder, k);
        }
        lemma_untouched_range(lists, after, list, parent, 0, place as nat);
        assert(flat_range(lists, holder, 0, 0) =~= Seq::<NativeId>::empty());
        assert(flat_range(after, holder, 0, 0) =~= Seq::<NativeId>::empty());
        assert(lead(lists, parent, place as nat) == lead(lists, parent, 0) + flat_range(
            lists,
            parent,
            0,
            place as nat,
        )) by {
            assert(flat_range(lists, parent, 0, 0) =~= Seq::<NativeId>::empty());
            assert(lead(lists, parent, 0) + flat_range(lists, parent, 0, place as nat) =~= lead(
                lists,
                parent,
                place as nat,
            ));
        }
        assert(lead(after, parent, place as nat) == lead(after, parent, 0) + flat_range(
            after,
            parent,
            0,
            place as nat,
        )) by {
            assert(flat_range(after, parent, 0, 0) =~= Seq::<NativeId>::empty());
            assert(lead(after, parent, 0) + flat_range(after, parent, 0, place as nat) =~= lead(
                after,
                parent,
                place as nat,
            ));
        }
        assert(lead(after, holder, 0) =~= lead(after, parent, place as nat));
        assert(lead(lists, holder, 0) =~= lead(lists, parent, place as nat));
        // after the holder
        let end = entries.len();
        assert forall|k: int| place + 1 <= k < end implies match #[trigger] entries[k] {
            DomChildren::Component(inner) => parent < inner ==> !holds(lists, inner, list),
            DomChildren::Dom(_) => true,
        } by {
            if entries[k] == DomChildren::Component(holder) {
                assert(position_of(entries, DomChildren::Component(holder)) == k);
            }
            lemma_siblings_do_not_hold(lists, list, holder, k);
        }
        lemma_untouched_range(lists, after, list, parent, (place + 1) as nat, end);
        lemma_flat_splits(lists, parent, (place + 1) as nat, end);
        lemma_flat_splits(after, parent, (place + 1) as nat, end);
        assert(flat_from(lists, parent, end) =~= Seq::<NativeId>::empty());
        assert(flat_from(after, parent, end) =~= Seq::<NativeId>::empty());
        lemma_rest_is_list_then_beyond(lists, parent, (place + 1) as nat);
        lemma_rest_is_list_then_beyond(after, parent, (place + 1) as nat);
    } else {
        assert(!stands_in_a_list(after, holder)) by {
            if holder != list {
                assert(after[holder as int] == lists[holder as int]);
            }
            match lists[holder as int].parent {
                Some(parent) => {
                    if parent < holder {
                        assert(after[parent as int] == lists[parent as int]);
                    }
                },
                None => {},
            }
        }
        assert(flat_range(lists, holder, 0, 0) =~= Seq::<NativeId>::empty());
        assert(flat_range(after, holder, 0, 0) =~= Seq::<NativeId>::empty());
    }
}

/// A change to one list is local: the document is what stood before the
/// list, the DOM nodes of the list, and what stood after the list, and only
/// the part in the middle is another afterwards.
pub proof fn law_list_change_is_local(lists: Lists, after: Lists, list: FactoryKey)
    requires
        nested(lists),
        differs_at(lists, after, list),
    ensures
        root_of(after, list) == root_of(lists, list),
        flat_from(lists, root_of(lists, list), 0) == lead(lists, list, 0) + flat_from(
            lists,
            list,
            0,
        ) + beyond(lists, list),
        flat_from(after, root_of(lists, list), 0) == lead(lists, list, 0) + flat_from(
            after,
            list,
            0,
        ) + beyond(lists, list),
{
    lemma_around_a_holder(lists, after, list, list);
    law_document_splits_at_every_place(lists, list, 0);
    law_document_splits_at_every_place(after, list, 0);
    lemma_rest_is_list_then_beyond(lists, list, 0);
    lemma_rest_is_list_then_beyond(after, list, 0);
    assert(lead(lists, list, 0) + (flat_from(lists, list, 0) + beyond(lists, list)) =~= lead(
        lists,
        list,
        0,
    ) + flat_from(lists, list, 0) + beyond(lists, list));
    assert(lead(lists, list, 0) + (flat_from(after, list, 0) + beyond(lists, list)) =~= lead(
        lists,
        list,
        0,
    ) + flat_from(after, list, 0) + beyond(lists, list));
}

/// Entries of the changed list that stayed where they were have the DOM
/// nodes they had.
pub proof fn lemma_same_entries(lists: Lists, after: Lists, list: FactoryKey, from: nat, to: nat)
    requires
        nested(lists),
        differs_at(lists, after, list),
        to <= lists[list as int].dom_children.len(),
        to <= after[list as int].dom_children.len(),
        forall|k: int|
            from <= k < to ==> #[trigger] after[list as int].dom_children[k]
                == lists[list as int].dom_children[k],
    ensures
        flat_range(after, list, from, to) == flat_range(lists, list, from, to),
    decreases to - from,
{
    if from < to {
        lemma_same_entries(lists, after, list, from + 1, to);
        assert(after[list as int].dom_children[from as int]
            == lists[list as int].dom_children[from as int]);
        match lists[list as int].dom_children[from as int] {
            DomChildren::Dom(_) => {},
            DomChildren::Component(inner) => {
                if list < inner < lists.len() {
                    if holds(lists, inner, list) {
                        lemma_holds_from_above(lists, inner, list);
                    }
                    lemma_untouched_list(lists, after, list, inner, 0);
                }
            },
        }
    }
}

/// Entries of the changed list that moved on by one place have the DOM
/// nodes they had.
pub proof fn lemma_moved_entries(lists: Lists, after: Lists, list: FactoryKey, from: nat)
    requires
        nested(lists),
        differs_at(lists, after, list),
        after[list as int].dom_children.len() == lists[list as int].dom_children.len() + 1,
        forall|k: int|
            from <= k < lists[list as int].dom_children.len()
                ==> #[trigger] after[list as int].dom_children[k + 1]
                == lists[list as int].dom_children[k],
    ensures
        flat_from(after, list, from + 1) == flat_from(lists, list, from),
    decreases lists[list as int].dom_children.len() - from,
{
    if from < lists[list as int].dom_children.len() {
        lemma_moved_entries(lists, after, list, from + 1);
        assert(after[list as int].dom_children[(from + 1) as int]
            == lists[list as int].dom_children[from as int]);
        match lists[list as int].dom_children[from as int] {
            DomChildren::Dom(_) => {},
            DomChildren::Component(inner) => {
                if list < inner < lists.len() {
                    if holds(lists, inner, list) {
                        lemma_holds_from_above(lists, inner, list);
                    }
                    lemma_untouched_list(lists, after, list, inner, 0);
                }
            },
        }
    }
}

/// A new DOM node goes into the document at its place. When a node that the
/// list does not hold is put into it, the document afterwards is the document
/// before with the node between what stood before the place and what
/// followed it, and the instruction for the document names as reference
/// the node that followed the place, or none if none followed.
pub proof fn law_new_node_goes_to_its_place(
    lists: Lists,
    list: FactoryKey,
    index: usize,
    node: NativeId,
)
    requires
        nested(lists),
        list < lists.len(),
        position_of(lists[list as int].dom_children, DomChildren::Dom(node))
            == lists[list as int].dom_children.len(),
        index <= lists[list as int].dom_children.len(),
    ensures
        ({
            let after = entry_placed(lists, list, index, DomChildren::Dom(node));
            let place = index as nat;
            let root = root_of(lists, list);
            let before = lead(lists, list, place);
            let following = rest_of_document(lists, list, place);
            &&& flat_from(lists, root, 0) == before + following
            &&& flat_from(after, root, 0) == before + seq![node] + following
            &&& node_move(lists, list, index, node) == Some(
                InsertBefore {
                    parent: lists[list as int].parent_dom_node,
                    node,
                    reference: if following.len() > 0 {
                        Some(following[0])
                    } else {
                        None
                    },
                },
            )
        }),
{
    let old = lists[list as int];
    let entries = old.dom_children;
    let place = index as nat;
    let grown = entries.insert(place as int, DomChildren::Dom(node));
    let after = entry_placed(lists, list, index, DomChildren::Dom(node));
    assert(after == lists.update(list as int, DomMountFactoryView { dom_children: grown, ..old }));
    assert(differs_at(lists, after, list));
    lemma_position_is_first(entries, DomChildren::Dom(node));
    // the list itself
    lemma_same_entries(lists, after, list, 0, place);
    lemma_moved_entries(lists, after, list, place);
    lemma_flat_splits(after, list, 0, place);
    lemma_flat_splits(lists, list, 0, place);
    assert(flat_from(after, list, place) == seq![node] + flat_from(after, list, place + 1));
    // around the list
    law_list_change_is_local(lists, after, list);
    lemma_around_a_holder(lists, after, list, list);
    law_document_splits_at_every_place(lists, list, place);
    lemma_rest_is_list_then_beyond(lists, list, place);
    lemma_rest_is_list_then_beyond(after, list, place + 1);
    assert(flat_range(lists, list, 0, 0) =~= Seq::<NativeId>::empty());
    assert(lead(lists, list, place) =~= lead(lists, list, 0) + flat_range(lists, list, 0, place));
    let before = lead(lists, list, place);
    let following = rest_of_document(lists, list, place);
    assert(flat_from(after, root_of(lists, list), 0) =~= before + seq![node] + following);
    // the instruction
    assert forall|j: int| 0 <= j < place implies grown[j] != DomChildren::Dom(node) by {
        assert(grown[j] == entries[j]);
    }
    lemma_position_of(grown, DomChildren::Dom(node), place as int);
    lemma_dom_at_is_first_of_rest(after, list, place + 1);
    assert(rest_of_document(after, list, place + 1) == following);
}

/// Putting a new DOM node into a list leaves the lists nested properly.
pub proof fn law_new_node_keeps_nesting(lists: Lists, list: FactoryKey, index: usize, node: NativeId)
    requires
        nested(lists),
        list < lists.len(),
        position_of(lists[list as int].dom_children, DomChildren::Dom(node))
            == lists[list as int].dom_children.len(),
        index <= lists[list as int].dom_children.len(),
    ensures
        nested(entry_placed(lists, list, index, DomChildren::Dom(node))),
{
    let old = lists[list as int];
    let entries = old.dom_children;
    let place = index as int;
    let grown = entries.insert(place, DomChildren::Dom(node));
    let after = entry_placed(lists, list, index, DomChildren::Dom(node));
    assert(after == lists.update(list as int, DomMountFactoryView { dom_children: grown, ..old }));
    assert forall|q: int, k: int|
        0 <= q < after.len() && 0 <= k < after[q].dom_children.len() implies match #[trigger] after[q].dom_children[k] {
        DomChildren::Component(inner) => {
            &&& inner < after.len() ==> after[inner as int].parent == Some(q as usize)
            &&& position_of(after[q].dom_children, DomChildren::Component(inner)) == k
        },
        DomChildren::Dom(_) => true,
    } by {
        if q != list {
            assert(after[q] == lists[q]);
            let entry = lists[q].dom_children[k];
        } else {
            match grown[k] {
                DomChildren::Dom(_) => {},
                DomChildren::Component(inner) => {
                    let item = DomChildren::Component(inner);
                    let was = if k < place {
                        k
                    } else {
                        k - 1
                    };
                    assert(entries[was] == item);
                    lemma_position_is_first(entries, item);
                    assert(position_of(entries, item) == was);
                    assert forall|j: int| 0 <= j < k implies grown[j] != item by {
                        if j < place {
                            assert(grown[j] == entries[j]);
                        } else if j > place {
                            assert(grown[j] == entries[j - 1]);
                        }
                    }
                    lemma_position_of(grown, item, k);
                },
            }
        }
    }
}

} // verus!
