//! Pak-level metadata as a writer holds it: a map from key id to value.

use std::collections::BTreeMap;

use vstd::prelude::*;
use vstd::std_specs::btree::increasing_seq;
use vstd::std_specs::cmp::OrdSpec;
use vstd::std_specs::iter::IteratorSpec;

use crate::serialization::pakfile::MetaEntry;

verus! {

broadcast use vstd::std_specs::btree::group_btree_axioms, vstd::laws_cmp::group_laws_cmp;

/// The keys are ids of known metadata keys (0 and 1).
pub open spec fn known_keys(m: Map<u16, u64>) -> bool {
    forall|k: u16| m.contains_key(k) ==> k <= 1
}

/// The metadata pairs of `m`, in key order.
pub open spec fn metadata_entries_of(m: Map<u16, u64>) -> Seq<MetaEntry> {
    (if m.contains_key(0) {
        seq![MetaEntry { key: 0, value: m[0] }]
    } else {
        seq![]
    }) + (if m.contains_key(1) {
        seq![MetaEntry { key: 1, value: m[1] }]
    } else {
        seq![]
    })
}

/// The metadata pairs of a map with known keys, in key order.
pub fn metadata_entry_list(m: &BTreeMap<u16, u64>) -> (r: Vec<MetaEntry>)
    requires
        known_keys(m@),
    ensures
        r@ == metadata_entries_of(m@),
{
    let iter = m.iter();
    let ghost rem = iter.remaining();
    let ghost ks = rem.map_values(|kv: (&u16, &u64)| *kv.0);
    proof {
        assert(increasing_seq(ks));
        assert forall|i: int, j: int| 0 <= i < j < ks.len() implies ks[i] < ks[j] by {
            assert(ks[i].cmp_spec(&ks[j]) is Less);
        }
    }
    let mut out: Vec<MetaEntry> = Vec::new();
    for kv in it: iter
        invariant
            it.seq() == rem,
            out@.len() == it.index(),
            forall|j: int|
                0 <= j < out@.len() ==> out@[j] == (MetaEntry { key: *rem[j].0, value: *rem[j].1 }),
    {
        out.push(MetaEntry { key: *kv.0, value: *kv.1 });
    }
    proof {
        let ps = out@;
        assert(ps.len() == m@.dom().len());
        assert forall|j: int| 0 <= j < ps.len() implies m@.contains_key(#[trigger] ps[j].key)
            && m@[ps[j].key] == ps[j].value by {
            assert(ps[j].key == ks[j]);
        }
        assert forall|i: int, j: int| 0 <= i < j < ps.len() implies ps[i].key < ps[j].key by {
            assert(ps[i].key == ks[i]);
            assert(ps[j].key == ks[j]);
        }
        if m@.contains_key(0) && m@.contains_key(1) {
            assert(m@.dom() =~= set![0u16, 1u16]);
            assert(ps.len() == 2);
            assert(m@.contains_key(ps[0].key) && m@.contains_key(ps[1].key));
            assert(ps[0].key < ps[1].key);
        } else if m@.contains_key(0) {
            assert(m@.dom() =~= set![0u16]);
            assert(ps.len() == 1);
            assert(m@.contains_key(ps[0].key));
        } else if m@.contains_key(1) {
            assert(m@.dom() =~= set![1u16]);
            assert(ps.len() == 1);
            assert(m@.contains_key(ps[0].key));
        } else {
            assert(m@.dom() =~= Set::<u16>::empty());
            assert(ps.len() == 0);
        }
        assert(ps =~= metadata_entries_of(m@));
    }
    out
}

} // verus!
