//! The style that a provider hands down to the task list.

use vstd::prelude::*;
use crate::value::{TypeToken, Value};

verus! {

/// The colour scheme of the application.
#[derive(Clone, Copy, PartialEq, Eq, Structural, Debug)]
pub enum StyleType {
    Dark,
    Light,
}

/// The type token of an encoded `StyleType`.
pub const STYLE_TYPE: TypeToken = 1;

impl StyleType {
    /// The byte that stands for the style.
    pub open spec fn tag(self) -> u8 {
        match self {
            StyleType::Dark => 0,
            StyleType::Light => 1,
        }
    }

    /// The encoding of the style.
    pub open spec fn encoded(self) -> (TypeToken, Seq<u8>) {
        (STYLE_TYPE, seq![self.tag()])
    }

    /// The style as a type-erased value.
    pub fn to_value(&self) -> (value: Value)
        ensures
            value@ == self.encoded(),
    {
        let mut bytes: Vec<u8> = Vec::new();
        bytes.push(
            match self {
                StyleType::Dark => 0,
                StyleType::Light => 1,
            },
        );
        assert(bytes@ =~= seq![self.tag()]);
        Value::new(STYLE_TYPE, bytes)
    }

    /// The style that `value` encodes, if it encodes one.
    pub fn from_value(value: &Value) -> (style: Option<StyleType>)
        ensures
            match style {
                Some(s) => value@ == s.encoded(),
                None => forall|s: StyleType| value@ != s.encoded(),
            },
    {
        if value.type_token != STYLE_TYPE || value.bytes.len() != 1 {
            assert forall|s: StyleType| value@ != s.encoded() by {
                assert(s.encoded().1.len() == 1);
            }
            return None;
        }
        let tag = value.bytes[0];
        if tag == 0 {
            assert(value.bytes@ =~= seq![0u8]);
            Some(StyleType::Dark)
        } else if tag == 1 {
            assert(value.bytes@ =~= seq![1u8]);
            Some(StyleType::Light)
        } else {
            assert forall|s: StyleType| value@ != s.encoded() by {
                assert(s.encoded().1[0] == s.tag());
            }
            None
        }
    }
}

} // verus!
