//! Which tasks the task list shows.

use vstd::prelude::*;
use crate::value::{TypeToken, Value};

verus! {

/// The filter on the task list.
#[derive(Clone, Copy, PartialEq, Eq, Structural, Debug)]
pub enum ViewType {
    All,
    Incomplete,
    Completed,
}

/// The type token of an encoded `ViewType`.
pub const VIEW_TYPE: TypeToken = 2;

impl ViewType {
    /// The byte that stands for the filter.
    pub open spec fn tag(self) -> u8 {
        match self {
            ViewType::All => 0,
            ViewType::Incomplete => 1,
            ViewType::Completed => 2,
        }
    }

    /// The encoding of the filter.
    pub open spec fn encoded(self) -> (TypeToken, Seq<u8>) {
        (VIEW_TYPE, seq![self.tag()])
    }

    /// The filter as a type-erased value.
    pub fn to_value(&self) -> (value: Value)
        ensures
            value@ == self.encoded(),
    {
        let mut bytes: Vec<u8> = Vec::new();
        bytes.push(
            match self {
                ViewType::All => 0,
                ViewType::Incomplete => 1,
                ViewType::Completed => 2,
            },
        );
        assert(bytes@ =~= seq![self.tag()]);
        Value::new(VIEW_TYPE, bytes)
    }

    /// The filter that `value` encodes, if it encodes one.
    pub fn from_value(value: &Value) -> (view: Option<ViewType>)
        ensures
            match view {
                Some(v) => value@ == v.encoded(),
                None => forall|v: ViewType| value@ != v.encoded(),
            },
    {
        if value.type_token != VIEW_TYPE || value.bytes.len() != 1 {
            assert forall|v: ViewType| value@ != v.encoded() by {
                assert(v.encoded().1.len() == 1);
            }
            return None;
        }
        let tag = value.bytes[0];
        if tag == 0 {
            assert(value.bytes@ =~= seq![0u8]);
            Some(ViewType::All)
        } else if tag == 1 {
            assert(value.bytes@ =~= seq![1u8]);
            Some(ViewType::Incomplete)
        } else if tag == 2 {
            assert(value.bytes@ =~= seq![2u8]);
            Some(ViewType::Completed)
        } else {
            assert forall|v: ViewType| value@ != v.encoded() by {
                assert(v.encoded().1[0] == v.tag());
            }
            None
        }
    }
}

} // verus!
