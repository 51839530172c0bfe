//! What a DOM backend needs besides the DOM itself: the node types it
//! renders and the bookkeeping of sibling order.

pub mod document;
pub mod dom_renderer;
pub mod v_dom_node;

pub use v_dom_node::{hd, ordered_children, t, Listener, VDom, VDomElement, VDomNode};
pub use dom_renderer::{DomChildren, DomFactories, DomMountFactory, FactoryKey, InsertBefore};
