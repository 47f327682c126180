//! The secondary index of a record family: an ordered map from identifier to
//! the offset of the record in the family's file.
//!
//! The index finds a record; it does not say that the record is still in
//! force. Whoever follows an offset checks the liveness byte.

use vstd::prelude::*;
use std::collections::BTreeMap;
use crate::platform::btree_range;
use crate::storage::wire::{be_bytes, be_value, le_bytes, le_value, push_be, push_le, read_be, read_le};
use crate::util::uuid::Uuid;

verus! {

/// One more than the greatest identifier value.
pub open spec fn key_limit() -> int {
    u128::MAX + 1
}

/// Whether `pairs` lists, in increasing order of key and each once, exactly
/// the entries of the map whose keys are at least `start` and less than
/// `end`.
pub open spec fn lists_range(
    entries: Map<u128, u64>,
    start: int,
    end: int,
    pairs: Seq<(u128, u64)>,
) -> bool {
    &&& forall|i: int|
        0 <= i < pairs.len() ==> start <= (#[trigger] pairs[i]).0 < end && entries.contains_key(
            pairs[i].0,
        ) && entries[pairs[i].0] == pairs[i].1
    &&& forall|i: int, j: int|
        0 <= i < j < pairs.len() ==> (#[trigger] pairs[i]).0 < (#[trigger] pairs[j]).0
    &&& forall|key: u128|
        start <= key < end && #[trigger] entries.contains_key(key) ==> exists|i: int|
            0 <= i < pairs.len() && (#[trigger] pairs[i]).0 == key
}

/// The flat form of a listing: for each entry the sixteen bytes of the
/// identifier, then the offset as eight little-endian bytes.
pub open spec fn listing_bytes(pairs: Seq<(u128, u64)>) -> Seq<u8>
    decreases pairs.len(),
{
    if pairs.len() == 0 {
        Seq::empty()
    } else {
        listing_bytes(pairs.drop_last()) + be_bytes(pairs.last().0 as nat, 16) + le_bytes(
            pairs.last().1 as nat,
            8,
        )
    }
}

/// Whether `bytes` is the flat form of the map: the flat form of the listing
/// of all its entries in increasing order of identifier.
pub open spec fn is_flat_form(entries: Map<u128, u64>, bytes: Seq<u8>) -> bool {
    exists|pairs: Seq<(u128, u64)>|
        lists_range(entries, 0, key_limit(), pairs) && bytes == #[trigger] listing_bytes(pairs)
}

/// The identifier of the entry that starts at `at`.
pub open spec fn entry_key(data: Seq<u8>, at: int) -> u128 {
    be_value(data.subrange(at, at + 16)) as u128
}

/// The offset of the entry that starts at `at`.
pub open spec fn entry_offset(data: Seq<u8>, at: int) -> u64 {
    le_value(data.subrange(at + 16, at + 24)) as u64
}

/// The map that the first `count` entries of a flat form make; a later entry
/// for an identifier replaces an earlier one.
pub open spec fn entries_of_prefix(data: Seq<u8>, count: nat) -> Map<u128, u64>
    decreases count,
{
    if count == 0 {
        Map::empty()
    } else {
        entries_of_prefix(data, (count - 1) as nat).insert(
            entry_key(data, 24 * (count - 1)),
            entry_offset(data, 24 * (count - 1)),
        )
    }
}

/// The map that a flat form makes: its whole entries, a trailing part of an
/// entry left aside.
pub open spec fn entries_of_bytes(data: Seq<u8>) -> Map<u128, u64> {
    entries_of_prefix(data, data.len() / 24)
}

/// The map that a listing makes; a later entry for an identifier replaces an
/// earlier one.
pub open spec fn entries_of_listing(pairs: Seq<(u128, u64)>) -> Map<u128, u64>
    decreases pairs.len(),
{
    if pairs.len() == 0 {
        Map::empty()
    } else {
        entries_of_listing(pairs.drop_last()).insert(pairs.last().0, pairs.last().1)
    }
}

/// The flat form of a listing has twenty-four bytes for each entry.
pub proof fn lemma_listing_bytes_len(pairs: Seq<(u128, u64)>)
    ensures
        listing_bytes(pairs).len() == 24 * pairs.len(),
    decreases pairs.len(),
{
    if pairs.len() > 0 {
        lemma_listing_bytes_len(pairs.drop_last());
        crate::storage::wire::lemma_be_bytes_len(pairs.last().0 as nat, 16);
        crate::storage::wire::lemma_le_bytes_len(pairs.last().1 as nat, 8);
    }
}

/// The first entries of a flat form depend on its first bytes alone.
pub proof fn lemma_prefix_depends_on_prefix(a: Seq<u8>, b: Seq<u8>, count: nat)
    requires
        24 * count <= a.len(),
        24 * count <= b.len(),
        a.take((24 * count) as int) == b.take((24 * count) as int),
    ensures
        entries_of_prefix(a, count) == entries_of_prefix(b, count),
    decreases count,
{
    if count > 0 {
        let at = 24 * (count - 1);
        let end = 24 * count as int;
        assert(a.take(at) =~= a.take(end).take(at));
        assert(b.take(at) =~= b.take(end).take(at));
        lemma_prefix_depends_on_prefix(a, b, (count - 1) as nat);
        assert(a.subrange(at, at + 16) =~= a.take(end).subrange(at, at + 16));
        assert(b.subrange(at, at + 16) =~= b.take(end).subrange(at, at + 16));
        assert(a.subrange(at + 16, at + 24) =~= a.take(end).subrange(at + 16, at + 24));
        assert(b.subrange(at + 16, at + 24) =~= b.take(end).subrange(at + 16, at + 24));
    }
}

/// Reading the flat form of a listing gives the map that the listing makes.
pub proof fn lemma_listing_reads_back(pairs: Seq<(u128, u64)>)
    ensures
        entries_of_bytes(listing_bytes(pairs)) == entries_of_listing(pairs),
    decreases pairs.len(),
{
    lemma_listing_bytes_len(pairs);
    let data = listing_bytes(pairs);
    let n = pairs.len();
    if n > 0 {
        let head = listing_bytes(pairs.drop_last());
        let key = be_bytes(pairs.last().0 as nat, 16);
        let offset = le_bytes(pairs.last().1 as nat, 8);
        lemma_listing_bytes_len(pairs.drop_last());
        lemma_listing_reads_back(pairs.drop_last());
        crate::storage::wire::lemma_be_bytes_len(pairs.last().0 as nat, 16);
        crate::storage::wire::lemma_le_bytes_len(pairs.last().1 as nat, 8);
        crate::storage::wire::lemma_pow256_values();
        crate::storage::wire::lemma_be_roundtrip(pairs.last().0 as nat, 16);
        crate::storage::wire::lemma_le_roundtrip(pairs.last().1 as nat, 8);
        let at = 24 * (n - 1);
        assert(data.take(at) =~= head);
        assert(head.take(at) =~= head);
        lemma_prefix_depends_on_prefix(data, head, (n - 1) as nat);
        assert(data.subrange(at, at + 16) =~= key);
        assert(data.subrange(at + 16, at + 24) =~= offset);
        assert(data.len() / 24 == n);
        assert(head.len() / 24 == n - 1);
    } else {
        assert(data.len() / 24 == 0);
    }
}

/// What the map of a listing holds: the identifiers listed, each with the
/// offset listed last for it.
pub proof fn lemma_entries_of_listing(pairs: Seq<(u128, u64)>)
    ensures
        forall|key: u128| #[trigger]
            entries_of_listing(pairs).contains_key(key) <==> exists|i: int|
                0 <= i < pairs.len() && (#[trigger] pairs[i]).0 == key,
        forall|i: int|
            0 <= i < pairs.len() && (forall|j: int|
                i < j < pairs.len() ==> (#[trigger] pairs[j]).0 != pairs[i].0)
                ==> entries_of_listing(pairs)[(#[trigger] pairs[i]).0] == pairs[i].1,
    decreases pairs.len(),
{
    if pairs.len() > 0 {
        let head = pairs.drop_last();
        let last = pairs.last();
        lemma_entries_of_listing(head);
        assert forall|key: u128| #[trigger]
            entries_of_listing(pairs).contains_key(key) <==> exists|i: int|
                0 <= i < pairs.len() && (#[trigger] pairs[i]).0 == key by {
            if entries_of_listing(pairs).contains_key(key) {
                if key == last.0 {
                    assert(pairs[pairs.len() - 1].0 == key);
                } else {
                    assert(entries_of_listing(head).contains_key(key));
                    let i = choose|i: int| 0 <= i < head.len() && (#[trigger] head[i]).0 == key;
                    assert(pairs[i] == head[i]);
                }
            }
            if exists|i: int| 0 <= i < pairs.len() && (#[trigger] pairs[i]).0 == key {
                let i = choose|i: int| 0 <= i < pairs.len() && (#[trigger] pairs[i]).0 == key;
                if i < head.len() {
                    assert(head[i].0 == key);
                    assert(entries_of_listing(head).contains_key(key));
                }
            }
        }
        assert forall|i: int|
            0 <= i < pairs.len() && (forall|j: int|
                i < j < pairs.len() ==> (#[trigger] pairs[j]).0 != pairs[i].0) implies entries_of_listing(
            pairs,
        )[(#[trigger] pairs[i]).0] == pairs[i].1 by {
            if i < head.len() {
                assert(pairs[pairs.len() - 1].0 != pairs[i].0);
                assert forall|j: int| i < j < head.len() implies (#[trigger] head[j]).0
                    != head[i].0 by {
                    assert(pairs[j].0 != pairs[i].0);
                }
                assert(head[i] == pairs[i]);
            }
        }
    }
}

/// The flat form of a full listing of a map reads back as the map.
pub proof fn lemma_index_reads_back(entries: Map<u128, u64>, pairs: Seq<(u128, u64)>)
    requires
        lists_range(entries, 0, key_limit(), pairs),
    ensures
        entries_of_bytes(listing_bytes(pairs)) == entries,
{
    lemma_listing_reads_back(pairs);
    lemma_entries_of_listing(pairs);
    let made = entries_of_listing(pairs);
    assert forall|key: u128| made.contains_key(key) <==> entries.contains_key(key) by {
        if made.contains_key(key) {
            let i = choose|i: int| 0 <= i < pairs.len() && (#[trigger] pairs[i]).0 == key;
            assert(entries.contains_key(pairs[i].0));
        }
    }
    assert forall|key: u128| made.contains_key(key) implies made[key] == entries[key] by {
        let i = choose|i: int| 0 <= i < pairs.len() && (#[trigger] pairs[i]).0 == key;
        assert forall|j: int| i < j < pairs.len() implies (#[trigger] pairs[j]).0 != pairs[i].0 by {
            assert(pairs[i].0 < pairs[j].0);
        }
        assert(made[pairs[i].0] == pairs[i].1);
    }
    assert(made =~= entries);
}

/// The flat form of a map reads back as the map.
pub proof fn lemma_flat_form_reads_back(entries: Map<u128, u64>, bytes: Seq<u8>)
    requires
        is_flat_form(entries, bytes),
    ensures
        entries_of_bytes(bytes) == entries,
{
    let pairs = choose|pairs: Seq<(u128, u64)>|
        lists_range(entries, 0, key_limit(), pairs) && bytes == #[trigger] listing_bytes(pairs);
    lemma_index_reads_back(entries, pairs);
}

/// An ordered map from identifier to offset.
#[derive(Debug)]
pub struct BTreeIndex {
    pub tree: BTreeMap<u128, u64>,
}

impl View for BTreeIndex {
    type V = Map<u128, u64>;

    /// The entries, by identifier value.
    open spec fn view(&self) -> Map<u128, u64> {
        self.tree@
    }
}

impl BTreeIndex {
    /// An index without entries.
    pub fn new() -> (index: BTreeIndex)
        ensures
            index@ == Map::<u128, u64>::empty(),
    {
        BTreeIndex { tree: BTreeMap::new() }
    }

    /// Sets the offset of an identifier, replacing an earlier one.
    pub fn insert(&mut self, id: Uuid, offset: u64)
        ensures
            final(self)@ == old(self)@.insert(id.value, offset),
    {
        self.tree.insert(id.value, offset);
    }

    /// The offset of an identifier, if it has one.
    pub fn get(&self, id: &Uuid) -> (offset: Option<u64>)
        ensures
            offset == if self@.contains_key(id.value) {
                Some(self@[id.value])
            } else {
                None::<u64>
            },
    {
        match self.tree.get(&id.value) {
            Some(offset) => Some(*offset),
            None => None,
        }
    }

    /// The entries whose identifiers are at least `start` and less than
    /// `end`, in increasing order of identifier; none where `end` is not
    /// greater than `start`.
    pub fn range(&self, start: &Uuid, end: &Uuid) -> (pairs: Vec<(Uuid, u64)>)
        ensures
            lists_range(self@, start.value as int, end.value as int, pair_values(pairs@)),
    {
        let mut pairs: Vec<(Uuid, u64)> = Vec::new();
        if start.value > end.value {
            proof {
                assert(pair_values(pairs@) =~= Seq::<(u128, u64)>::empty());
            }
            return pairs;
        }
        let found = btree_range(&self.tree, start.value, end.value);
        let mut i: usize = 0;
        while i < found.len()
            invariant
                i <= found@.len(),
                pair_values(pairs@) == found@.take(i as int),
            decreases found@.len() - i,
        {
            let pair = found[i];
            let ghost before = pairs@;
            pairs.push((Uuid { value: pair.0 }, pair.1));
            proof {
                assert(pairs@ == before.push((Uuid { value: pair.0 }, pair.1)));
                assert(found@.take(i + 1) =~= found@.take(i as int).push(found@[i as int]));
                assert(pair_values(pairs@) =~= pair_values(before).push((pair.0, pair.1)));
            }
            i = i + 1;
        }
        proof {
            assert(found@.take(i as int) =~= found@);
        }
        pairs
    }

    /// The number of entries.
    pub fn len(&self) -> (n: usize)
        ensures
            n == self@.len(),
    {
        self.tree.len()
    }

    /// Every entry, in increasing order of identifier.
    pub fn entries(&self) -> (pairs: Vec<(u128, u64)>)
        ensures
            lists_range(self@, 0, key_limit(), pairs@),
    {
        let last: u128 = 0xffff_ffff_ffff_ffff_ffff_ffff_ffff_ffffu128;
        let mut pairs = btree_range(&self.tree, 0, last);
        let ghost below = pairs@;
        match self.tree.get(&last) {
            Some(offset) => {
                pairs.push((last, *offset));
                proof {
                    assert forall|key: u128|
                        0 <= key < key_limit() && #[trigger] self@.contains_key(
                            key,
                        ) implies exists|i: int|
                        0 <= i < pairs@.len() && (#[trigger] pairs@[i]).0 == key by {
                        if key == last {
                            assert(pairs@[below.len() as int].0 == key);
                        } else {
                            let i = choose|i: int|
                                0 <= i < below.len() && (#[trigger] below[i]).0 == key;
                            assert(pairs@[i].0 == key);
                        }
                    }
                }
            },
            None => {
                proof {
                    assert forall|key: u128|
                        0 <= key < key_limit() && #[trigger] self@.contains_key(
                            key,
                        ) implies exists|i: int|
                        0 <= i < pairs@.len() && (#[trigger] pairs@[i]).0 == key by {
                        let i = choose|i: int|
                            0 <= i < below.len() && (#[trigger] below[i]).0 == key;
                        assert(pairs@[i].0 == key);
                    }
                }
            },
        }
        pairs
    }

    /// The flat form of the index: its entries in increasing order of
    /// identifier, twenty-four bytes each.
    pub fn persist(&self) -> (bytes: Vec<u8>)
        ensures
            is_flat_form(self@, bytes@),
            entries_of_bytes(bytes@) == self@,
    {
        let pairs = self.entries();
        proof {
            lemma_index_reads_back(self@, pairs@);
        }
        let mut bytes: Vec<u8> = Vec::new();
        let mut i: usize = 0;
        while i < pairs.len()
            invariant
                i <= pairs@.len(),
                bytes@ == listing_bytes(pairs@.take(i as int)),
            decreases pairs@.len() - i,
        {
            let (key, offset) = pairs[i];
            proof {
                assert(pairs@.take(i + 1).drop_last() =~= pairs@.take(i as int));
            }
            push_be(&mut bytes, key, 16);
            push_le(&mut bytes, offset, 8);
            i = i + 1;
        }
        proof {
            assert(pairs@.take(i as int) =~= pairs@);
        }
        bytes
    }

    /// The index that a flat form makes: whole entries are read until fewer
    /// than twenty-four bytes remain.
    pub fn load(data: &[u8]) -> (index: BTreeIndex)
        ensures
            index@ == entries_of_bytes(data@),
    {
        let total: usize = data.len();
        let count: usize = total / 24;
        let mut tree: BTreeMap<u128, u64> = BTreeMap::new();
        let mut i: usize = 0;
        while i < count
            invariant
                i <= count == total / 24,
                total == data@.len(),
                tree@ == entries_of_prefix(data@, i as nat),
            decreases count - i,
        {
            let at: usize = 24 * i;
            let key = read_be(data, at, 16);
            let offset = read_le(data, at + 16, 8);
            tree.insert(key, offset);
            i = i + 1;
        }
        BTreeIndex { tree }
    }
}

/// The entries of a listing, by identifier value.
pub open spec fn pair_values(pairs: Seq<(Uuid, u64)>) -> Seq<(u128, u64)> {
    pairs.map_values(|pair: (Uuid, u64)| (pair.0.value, pair.1))
}

} // verus!
