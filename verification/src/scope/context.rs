//! The provider chain: context nodes linked to their parents, searched
//! upward by type, each with the renderers that subscribed to it.

use vstd::prelude::*;
use crate::scope::renderer::RendererId;
use crate::value::{TypeToken, Value};

verus! {

/// Identifies a context node: its position in the arena.
pub type ContextId = usize;

/// Where a mount is attached to the provider chain: the nearest provider
/// above it, or nothing at the root.
pub type ContextLink = Option<ContextId>;

/// One provider: the value it provides (its type is the value's type
/// token), the provider above it, and its subscribers in the order in which
/// they subscribed.
pub struct ContextNode {
    pub parent: ContextLink,
    pub value: Value,
    pub renderers: Vec<RendererId>,
}

/// The model of a provider.
pub struct ContextNodeView {
    pub parent: ContextLink,
    pub value: Value,
    pub renderers: Seq<RendererId>,
}

impl View for ContextNode {
    type V = ContextNodeView;

    open spec fn view(&self) -> ContextNodeView {
        ContextNodeView { parent: self.parent, value: self.value, renderers: self.renderers@ }
    }
}

/// All providers, addressed by stable identifiers. A node is never moved
/// or removed, so links stored elsewhere stay valid.
pub struct ContextArena {
    pub nodes: Vec<ContextNode>,
}

impl View for ContextArena {
    type V = Seq<ContextNodeView>;

    open spec fn view(&self) -> Seq<ContextNodeView> {
        Seq::new(self.nodes@.len(), |i: int| self.nodes@[i]@)
    }
}

/// A subscription of a component to a provider.
#[derive(Clone, Copy, PartialEq, Eq, Structural, Debug)]
pub struct ContextConsumerHandle {
    pub context_node: ContextId,
    pub type_token: TypeToken,
}

/// The rank of a link in the upward search: it falls with every step.
pub open spec fn link_rank(link: ContextLink) -> nat {
    match link {
        None => 0,
        Some(n) => (n + 1) as nat,
    }
}

/// The nearest provider of type `token` at or above `link`. The search
/// ends without a result at the root, at a link that leads nowhere, and at
/// a parent link that does not lead upward.
pub open spec fn resolve_spec(nodes: Seq<ContextNodeView>, link: ContextLink, token: TypeToken)
    -> Option<ContextId>
    decreases link_rank(link),
{
    match link {
        None => None,
        Some(n) => if n >= nodes.len() {
            None
        } else if nodes[n as int].value.type_token == token {
            Some(n)
        } else if link_rank(nodes[n as int].parent) < link_rank(link) {
            resolve_spec(nodes, nodes[n as int].parent, token)
        } else {
            None
        },
    }
}

/// What the search finds is a node of the arena, of the type asked for.
pub proof fn lemma_resolve_in_range(nodes: Seq<ContextNodeView>, link: ContextLink, token: TypeToken)
    ensures
        resolve_spec(nodes, link, token) matches Some(n) ==> n < nodes.len()
            && nodes[n as int].value.type_token == token,
    decreases link_rank(link),
{
    match link {
        None => {},
        Some(n) => {
            if n < nodes.len() && nodes[n as int].value.type_token != token && link_rank(
                nodes[n as int].parent,
            ) < link_rank(link) {
                lemma_resolve_in_range(nodes, nodes[n as int].parent, token);
            }
        },
    }
}

/// Whether the provider `node` stands on the chain that leads upward from
/// `link`.
pub open spec fn on_chain(nodes: Seq<ContextNodeView>, link: ContextLink, node: ContextId) -> bool
    decreases link_rank(link),
{
    match link {
        None => false,
        Some(n) => n < nodes.len() && (n == node || (link_rank(nodes[n as int].parent)
            < link_rank(link) && on_chain(nodes, nodes[n as int].parent, node))),
    }
}

/// The search finds the nearest provider of the type on the chain above
/// the link: the provider stands on the chain, no provider of the type
/// stands before it, and where the search finds nothing the chain holds no
/// provider of the type.
pub proof fn law_resolve_finds_the_nearest(
    nodes: Seq<ContextNodeView>,
    link: ContextLink,
    token: TypeToken,
)
    ensures
        match resolve_spec(nodes, link, token) {
            Some(found) => {
                &&& on_chain(nodes, link, found)
                &&& nodes[found as int].value.type_token == token
                &&& forall|between: ContextId|
                    on_chain(nodes, link, between) && between != found && #[trigger] on_chain(
                        nodes,
                        Some(between),
                        found,
                    ) ==> nodes[between as int].value.type_token != token
            },
            None => forall|node: ContextId| #[trigger]
                on_chain(nodes, link, node) ==> nodes[node as int].value.type_token != token,
        },
    decreases link_rank(link),
{
    match link {
        None => {},
        Some(n) => {
            if n < nodes.len() {
                let parent = nodes[n as int].parent;
                if nodes[n as int].value.type_token == token {
                    assert forall|between: ContextId|
                        on_chain(nodes, link, between) && between != n && #[trigger] on_chain(
                            nodes,
                            Some(between),
                            n,
                        ) implies nodes[between as int].value.type_token != token by {
                        lemma_chain_leads_upward(nodes, link, between);
                        lemma_chain_leads_upward(nodes, Some(between), n);
                    }
                } else if link_rank(parent) < link_rank(link) {
                    law_resolve_finds_the_nearest(nodes, parent, token);
                    match resolve_spec(nodes, parent, token) {
                        Some(found) => {
                            assert(on_chain(nodes, link, found));
                            assert forall|between: ContextId|
                                on_chain(nodes, link, between) && between != found
                                    && #[trigger] on_chain(
                                    nodes,
                                    Some(between),
                                    found,
                                ) implies nodes[between as int].value.type_token != token by {
                                if between != n {
                                    assert(on_chain(nodes, parent, between));
                                }
                            }
                        },
                        None => {
                            assert forall|node: ContextId| #[trigger]
                                on_chain(nodes, link, node) implies nodes[node as int].value.type_token
                                != token by {
                                if node != n {
                                    assert(on_chain(nodes, parent, node));
                                }
                            }
                        },
                    }
                } else {
                    assert forall|node: ContextId| #[trigger]
                        on_chain(nodes, link, node) implies nodes[node as int].value.type_token
                        != token by {
                        assert(node == n);
                    }
                }
            }
        },
    }
}

/// A provider on the chain above a link stands at the link or before it in
/// the arena.
pub proof fn lemma_chain_leads_upward(nodes: Seq<ContextNodeView>, link: ContextLink, node: ContextId)
    requires
        on_chain(nodes, link, node),
    ensures
        link_rank(Some(node)) <= link_rank(link),
    decreases link_rank(link),
{
    match link {
        None => {},
        Some(n) => {
            if n != node {
                lemma_chain_leads_upward(nodes, nodes[n as int].parent, node);
            }
        },
    }
}

/// The position of the first `r` in `s`, or the length of `s`.
pub open spec fn first_index(s: Seq<RendererId>, r: RendererId) -> int
    decreases s.len(),
{
    if s.len() == 0 {
        0
    } else if s[0] == r {
        0
    } else {
        1 + first_index(s.drop_first(), r)
    }
}

/// `s` without its first `r`, if it holds one.
pub open spec fn without_first(s: Seq<RendererId>, r: RendererId) -> Seq<RendererId> {
    let i = first_index(s, r);
    if i < s.len() {
        s.remove(i)
    } else {
        s
    }
}

/// `first_index` is where a scan from the front stops.
pub proof fn lemma_first_index(s: Seq<RendererId>, r: RendererId, i: int)
    requires
        0 <= i <= s.len(),
        forall|j: int| 0 <= j < i ==> s[j] != r,
        i < s.len() ==> s[i] == r,
    ensures
        first_index(s, r) == i,
    decreases s.len(),
{
    if s.len() == 0 {
    } else if i == 0 {
    } else {
        let t = s.drop_first();
        assert forall|j: int| 0 <= j < i - 1 implies t[j] != r by {
            assert(t[j] == s[j + 1]);
        }
        lemma_first_index(t, r, i - 1);
    }
}

/// The providers after `renderer` was taken off the subscriber list of
/// `node`, once.
pub open spec fn unsubscribed(nodes: Seq<ContextNodeView>, node: ContextId, renderer: RendererId)
    -> Seq<ContextNodeView> {
    if node < nodes.len() {
        nodes.update(
            node as int,
            ContextNodeView {
                renderers: without_first(nodes[node as int].renderers, renderer),
                ..nodes[node as int]
            },
        )
    } else {
        nodes
    }
}

impl ContextArena {
    /// No providers.
    pub fn new() -> (r: ContextArena)
        ensures
            r@ == Seq::<ContextNodeView>::empty(),
    {
        let r = ContextArena { nodes: Vec::new() };
        assert(r@ =~= Seq::<ContextNodeView>::empty());
        r
    }

    /// The number of providers.
    pub fn len(&self) -> (n: usize)
        ensures
            n == self@.len(),
    {
        self.nodes.len()
    }

    /// Adds a provider of `value` below `parent`, without subscribers.
    pub fn insert(&mut self, value: Value, parent: ContextLink) -> (id: ContextId)
        ensures
            id == old(self)@.len(),
            final(self)@ == old(self)@.push(
                ContextNodeView { parent, value, renderers: Seq::empty() },
            ),
    {
        let id = self.nodes.len();
        self.nodes.push(ContextNode { parent, value, renderers: Vec::new() });
        assert(self@ =~= old(self)@.push(
            ContextNodeView { parent, value, renderers: Seq::empty() },
        ));
        id
    }

    /// The provider above `node`.
    pub fn parent(&self, node: ContextId) -> (r: ContextLink)
        requires
            node < self@.len(),
        ensures
            r == self@[node as int].parent,
    {
        self.nodes[node].parent
    }

    /// The value that `node` provides.
    pub fn value(&self, node: ContextId) -> (r: &Value)
        requires
            node < self@.len(),
        ensures
            *r == self@[node as int].value,
    {
        &self.nodes[node].value
    }

    /// The subscribers of `node`, in the order of their subscriptions.
    pub fn subscribers(&self, node: ContextId) -> (r: &Vec<RendererId>)
        requires
            node < self@.len(),
        ensures
            r@ == self@[node as int].renderers,
    {
        &self.nodes[node].renderers
    }

    /// Replaces the provided value in place: the node keeps its identity,
    /// its parent and its subscribers.
    pub fn replace_value(&mut self, node: ContextId, value: Value)
        requires
            node < old(self)@.len(),
        ensures
            final(self)@ == old(self)@.update(
                node as int,
                ContextNodeView { value, ..old(self)@[node as int] },
            ),
    {
        self.nodes[node].value = value;
        assert(self@ =~= old(self)@.update(
            node as int,
            ContextNodeView { value, ..old(self)@[node as int] },
        ));
    }

    /// Walks the chain upward from `link` to the nearest provider of type
    /// `token`.
    pub fn resolve(&self, link: ContextLink, token: TypeToken) -> (r: Option<ContextId>)
        ensures
            r == resolve_spec(self@, link, token),
    {
        let mut current = link;
        loop
            invariant
                resolve_spec(self@, current, token) == resolve_spec(self@, link, token),
            decreases link_rank(current),
        {
            match current {
                None => {
                    return None;
                },
                Some(n) => {
                    if n >= self.nodes.len() {
                        return None;
                    }
                    if self.nodes[n].value.type_token == token {
                        return Some(n);
                    }
                    let parent = self.nodes[n].parent;
                    let upward = match parent {
                        None => true,
                        Some(p) => p < n,
                    };
                    if !upward {
                        return None;
                    }
                    current = parent;
                },
            }
        }
    }

    /// Adds `renderer` to the subscribers of `node`.
    pub fn subscribe(&mut self, node: ContextId, renderer: RendererId)
        requires
            node < old(self)@.len(),
        ensures
            final(self)@ == old(self)@.update(
                node as int,
                ContextNodeView {
                    renderers: old(self)@[node as int].renderers.push(renderer),
                    ..old(self)@[node as int]
                },
            ),
    {
        self.nodes[node].renderers.push(renderer);
        assert(self@ =~= old(self)@.update(
            node as int,
            ContextNodeView {
                renderers: old(self)@[node as int].renderers.push(renderer),
                ..old(self)@[node as int]
            },
        ));
    }

    /// Takes `renderer` off the subscribers of `node`, once. A node that
    /// does not exist, or does not hold the renderer, changes nothing.
    pub fn unsubscribe(&mut self, node: ContextId, renderer: RendererId)
        ensures
            final(self)@ == unsubscribed(old(self)@, node, renderer),
    {
        if node >= self.nodes.len() {
            return ;
        }
        let mut i: usize = 0;
        while i < self.nodes[node].renderers.len() && self.nodes[node].renderers[i] != renderer
            invariant
                node < self.nodes@.len(),
                i <= self.nodes@[node as int].renderers@.len(),
                forall|j: int| 0 <= j < i ==> self.nodes@[node as int].renderers@[j] != renderer,
            decreases self.nodes@[node as int].renderers@.len() - i,
        {
            i += 1;
        }
        proof {
            lemma_first_index(self.nodes@[node as int].renderers@, renderer, i as int);
        }
        if i < self.nodes[node].renderers.len() {
            self.nodes[node].renderers.remove(i);
        }
        assert(self@ =~= unsubscribed(old(self)@, node, renderer));
    }

    /// Drops every subscription to `node`.
    pub fn discard_subscribers(&mut self, node: ContextId)
        requires
            node < old(self)@.len(),
        ensures
            final(self)@ == old(self)@.update(
                node as int,
                ContextNodeView { renderers: Seq::empty(), ..old(self)@[node as int] },
            ),
    {
        self.nodes[node].renderers.clear();
        assert(self@ =~= old(self)@.update(
            node as int,
            ContextNodeView { renderers: Seq::empty(), ..old(self)@[node as int] },
        ));
    }
}

impl ContextConsumerHandle {
    /// Ends the subscription of `renderer` to the provider of this handle.
    pub fn cleanup(&self, contexts: &mut ContextArena, renderer: RendererId)
        ensures
            final(contexts)@ == unsubscribed(old(contexts)@, self.context_node, renderer),
    {
        contexts.unsubscribe(self.context_node, renderer);
    }
}

/// A copy of the link.
pub fn clone_context_link(context_link: &ContextLink) -> (r: ContextLink)
    ensures
        r == *context_link,
{
    *context_link
}

} // verus!
