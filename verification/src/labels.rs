//! The identifying attribute tuple of one observed instance within a family.
use vstd::prelude::*;
use vstd::slice::slice_to_vec;

use crate::bytes::bytes_eq;

verus! {

/// Mathematical value of a [`LabelSet`].
pub struct LabelSetV {
    pub id: u32,
    pub type_text: Seq<u8>,
    pub name: Seq<u8>,
}

/// An immutable value object identifying one observed instance of a subject:
/// its numeric ID, the name of its type, and its own name. Two label sets are
/// equal exactly when all three fields match.
pub struct LabelSet {
    /// Unique numeric ID of the instance.
    pub id: u32,
    /// Name of the instance's type.
    pub type_text: Vec<u8>,
    /// Name of the instance.
    pub name: Vec<u8>,
}

impl View for LabelSet {
    type V = LabelSetV;

    open spec fn view(&self) -> LabelSetV {
        LabelSetV { id: self.id, type_text: self.type_text@, name: self.name@ }
    }
}

impl LabelSet {
    /// Builds a label set from its three fields.
    pub fn new(id: u32, type_text: Vec<u8>, name: Vec<u8>) -> (r: LabelSet)
        ensures
            r@ == (LabelSetV { id, type_text: type_text@, name: name@ }),
    {
        LabelSet { id, type_text, name }
    }

    /// Whether two label sets hold the same fields.
    pub fn same_as(&self, other: &LabelSet) -> (r: bool)
        ensures
            r == (self@ == other@),
    {
        let r = self.id == other.id && bytes_eq(self.type_text.as_slice(), other.type_text.as_slice())
            && bytes_eq(self.name.as_slice(), other.name.as_slice());
        proof {
            if r {
                assert(self@ == other@);
            } else {
                assert(self@ != other@);
            }
        }
        r
    }

    /// A copy of this label set.
    pub fn duplicate(&self) -> (r: LabelSet)
        ensures
            r@ == self@,
    {
        LabelSet {
            id: self.id,
            type_text: slice_to_vec(self.type_text.as_slice()),
            name: slice_to_vec(self.name.as_slice()),
        }
    }
}

} // verus!
