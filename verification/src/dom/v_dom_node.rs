//! Native nodes of the DOM target.

use vstd::prelude::*;
use vstd::string::StringExecFns;
use crate::scope::callback::CallbackHandle;
use crate::scope::ref_object::NilRef;
use crate::v_node::v_node::VNode;

verus! {

/// A node of a tree that renders to the DOM.
pub type VDomNode<M> = VNode<VDom<M>, M>;

/// An event name and the callback to invoke for it.
pub type Listener = (String, CallbackHandle);

/// An element: its tag, listeners, attributes and style properties, what
/// is rendered inside it, and the ref that receives the element.
pub struct VDomElement<M> {
    pub tag_name: String,
    pub listeners: Vec<Listener>,
    pub attributes: Vec<(String, String)>,
    pub style: Vec<(String, String)>,
    pub children: Box<VDomNode<M>>,
    pub ref_object: NilRef,
}

/// What the DOM target can show at a leaf of the tree.
pub enum VDom<M> {
    Element(VDomElement<M>),
    Text(String),
}

/// The decimal digit for `d`.
pub open spec fn digit(d: nat) -> char {
    if d == 0 {
        '0'
    } else if d == 1 {
        '1'
    } else if d == 2 {
        '2'
    } else if d == 3 {
        '3'
    } else if d == 4 {
        '4'
    } else if d == 5 {
        '5'
    } else if d == 6 {
        '6'
    } else if d == 7 {
        '7'
    } else if d == 8 {
        '8'
    } else {
        '9'
    }
}

/// The decimal numeral of `n`, without leading zeros.
pub open spec fn decimal(n: nat) -> Seq<char>
    decreases n,
{
    if n < 10 {
        seq![digit(n)]
    } else {
        decimal(n / 10).push(digit(n % 10))
    }
}

/// The numeral of one digit.
fn digit_str(d: usize) -> (s: &'static str)
    requires
        d < 10,
    ensures
        s@ == seq![digit(d as nat)],
{
    proof {
        reveal_strlit("0");
        reveal_strlit("1");
        reveal_strlit("2");
        reveal_strlit("3");
        reveal_strlit("4");
        reveal_strlit("5");
        reveal_strlit("6");
        reveal_strlit("7");
        reveal_strlit("8");
        reveal_strlit("9");
    }
    if d == 0 {
        "0"
    } else if d == 1 {
        "1"
    } else if d == 2 {
        "2"
    } else if d == 3 {
        "3"
    } else if d == 4 {
        "4"
    } else if d == 5 {
        "5"
    } else if d == 6 {
        "6"
    } else if d == 7 {
        "7"
    } else if d == 8 {
        "8"
    } else {
        "9"
    }
}

/// The decimal numeral of `n` as a string.
pub fn index_key(n: usize) -> (key: String)
    ensures
        key@ == decimal(n as nat),
    decreases n,
{
    if n < 10 {
        String::from_str(digit_str(n))
    } else {
        index_key(n / 10).concat(digit_str(n % 10))
    }
}

/// The children of an element in a fixed order: a fragment that keys every
/// child by the numeral of its position.
pub fn ordered_children<M>(children: Vec<VDomNode<M>>) -> (r: Box<VDomNode<M>>)
    ensures
        *r matches VNode::Fragment(keyed) && keyed@.len() == children@.len() && forall|i: int|
            0 <= i < children@.len() ==> (#[trigger] keyed@[i]).0@ == decimal(i as nat)
                && keyed@[i].1 == children@[i],
{
    let mut rest = crate::renderer::fragment::reversed(children);
    let mut keyed: Vec<(String, VDomNode<M>)> = Vec::new();
    while rest.len() > 0
        invariant
            rest@.len() + keyed@.len() == children@.len(),
            forall|i: int| 0 <= i < rest@.len() ==> rest@[i] == children@[children@.len() - 1 - i],
            forall|i: int|
                0 <= i < keyed@.len() ==> (#[trigger] keyed@[i]).0@ == decimal(i as nat)
                    && keyed@[i].1 == children@[i],
        decreases rest@.len(),
    {
        let child = rest.pop().unwrap();
        let key = index_key(keyed.len());
        keyed.push((key, child));
    }
    Box::new(VNode::Fragment(keyed))
}

/// An element node.
pub fn hd<M>(element: VDomElement<M>) -> (r: VDomNode<M>)
    ensures
        r == VNode::<VDom<M>, M>::Native(VDom::Element(element)),
{
    VNode::Native(VDom::Element(element))
}

/// A text node.
pub fn t<M>(s: &str) -> (r: VDomNode<M>)
    ensures
        r matches VNode::Native(VDom::Text(text)) && text@ == s@,
{
    VNode::Native(VDom::Text(String::from_str(s)))
}

} // verus!
