//! Type-erased values: a type token and the value's encoding.

use vstd::prelude::*;

verus! {

/// Identifies the type of a value, a component or a context provider.
pub type TypeToken = u64;

/// A value whose static type was erased: the token of its type and its
/// encoding as bytes. Two values are the same when both agree.
pub struct Value {
    pub type_token: TypeToken,
    pub bytes: Vec<u8>,
}

impl View for Value {
    type V = (TypeToken, Seq<u8>);

    open spec fn view(&self) -> (TypeToken, Seq<u8>) {
        (self.type_token, self.bytes@)
    }
}

impl Value {
    /// The value of type `type_token` with the encoding `bytes`.
    pub fn new(type_token: TypeToken, bytes: Vec<u8>) -> (r: Value)
        ensures
            r.type_token == type_token,
            r.bytes == bytes,
    {
        Value { type_token, bytes }
    }

    /// Equality of values: same type token and same encoding.
    pub fn same(&self, other: &Value) -> (r: bool)
        ensures
            r == (self@ == other@),
    {
        let bytes_equal = self.bytes == other.bytes;
        assert(bytes_equal == (self.bytes@ =~= other.bytes@));
        self.type_token == other.type_token && bytes_equal
    }

    /// A copy with the same token and encoding.
    pub fn duplicate(&self) -> (r: Value)
        ensures
            r@ == self@,
    {
        Value { type_token: self.type_token, bytes: self.bytes.clone() }
    }
}

} // verus!
