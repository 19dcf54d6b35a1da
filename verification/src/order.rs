//! The order in which a `BTreeMap` with integer keys is walked.

use vstd::prelude::*;
use vstd::std_specs::btree::increasing_seq;
use vstd::std_specs::cmp::OrdSpec;

verus! {

/// The keys of what a walk over a `BTreeMap` keyed by `u32` yields ascend.
pub proof fn lemma_keys_ascend<V>(entries: Seq<(&u32, &V)>)
    requires
        increasing_seq(entries.map_values(|kv: (&u32, &V)| *kv.0)),
    ensures
        forall|a: int, b: int|
            0 <= a < b < entries.len() ==> *(#[trigger] entries[a]).0 < *(#[trigger] entries[b]).0,
{
    let keys = entries.map_values(|kv: (&u32, &V)| *kv.0);
    assert forall|a: int, b: int| 0 <= a < b < entries.len() implies *(#[trigger] entries[a]).0 < *(
    #[trigger] entries[b]).0 by {
        assert(keys[a] == *entries[a].0);
        assert(keys[b] == *entries[b].0);
        assert(keys[a].cmp_spec(&keys[b]) is Less);
    }
}

} // verus!
