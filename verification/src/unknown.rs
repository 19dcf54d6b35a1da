//! Fields that were read from the wire without a declaration to decode them by.

use vstd::prelude::*;

verus! {

/// One undecoded entry of a message, kept exactly as it was read so that it
/// can be written back unchanged.
#[derive(Debug, PartialEq, Eq)]
pub struct UnknownField {
    pub bytes: Vec<u8>,
}

impl View for UnknownField {
    type V = Seq<u8>;

    open spec fn view(&self) -> Seq<u8> {
        self.bytes@
    }
}

impl Clone for UnknownField {
    fn clone(&self) -> (r: Self)
        ensures
            r@ == self@,
    {
        let bytes = self.bytes.clone();
        assert(bytes@ =~= self.bytes@);
        UnknownField { bytes }
    }
}

impl UnknownField {
    /// An entry holding `bytes`.
    pub fn new(bytes: Vec<u8>) -> (r: UnknownField)
        ensures
            r@ == bytes@,
    {
        UnknownField { bytes }
    }
}

/// The contents of a run of undecoded entries, in order.
pub open spec fn unknown_views(entries: Seq<UnknownField>) -> Seq<Seq<u8>> {
    Seq::new(entries.len(), |i: int| entries[i]@)
}

} // verus!
