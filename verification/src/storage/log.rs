//! What an image holds, seen as a log: a sequence of slots, each a record
//! behind its liveness byte. The laws here tie the byte-level operations of
//! the store to that view.

use vstd::prelude::*;
use crate::error::Error;
use crate::storage::binary::{FromBinary, ToBinary, LIVE, TOMBSTONE};
use crate::storage::store::{family_fields, read_at, scan_from, slot_outcome, Record};

verus! {

/// One record in an image.
pub enum Slot<V> {
    /// A record in force.
    Live(V),
    /// A record whose liveness byte was zeroed.
    Tombstoned(V),
    /// A record that is kept on file but is no part of the live view, such
    /// as an archived conversion graph.
    Archived(V),
}

impl<V> Slot<V> {
    /// The record in the slot.
    pub open spec fn value(self) -> V {
        match self {
            Slot::Live(v) => v,
            Slot::Tombstoned(v) => v,
            Slot::Archived(v) => v,
        }
    }

    /// The liveness byte of the slot.
    pub open spec fn liveness(self) -> u8 {
        match self {
            Slot::Tombstoned(_) => TOMBSTONE,
            _ => LIVE,
        }
    }
}

/// The fields of a record as the catalog's layout of its family writes them.
pub open spec fn record_bytes<T: Record>(v: T::V) -> Seq<u8> {
    T::encoded(v, family_fields(T::spec_family()))->Ok_0
}

/// The bytes of a slot: the liveness byte, then the record.
pub open spec fn slot_bytes<T: Record>(slot: Slot<T::V>) -> Seq<u8> {
    seq![slot.liveness()] + record_bytes::<T>(slot.value())
}

/// The image that a sequence of slots makes.
pub open spec fn log_bytes<T: Record>(slots: Seq<Slot<T::V>>) -> Seq<u8>
    decreases slots.len(),
{
    if slots.len() == 0 {
        Seq::empty()
    } else {
        slot_bytes::<T>(slots[0]) + log_bytes::<T>(slots.drop_first())
    }
}

/// The records in force, in file order.
pub open spec fn live_values<V>(slots: Seq<Slot<V>>) -> Seq<V>
    decreases slots.len(),
{
    if slots.len() == 0 {
        Seq::empty()
    } else {
        match slots[0] {
            Slot::Live(v) => seq![v] + live_values(slots.drop_first()),
            _ => live_values(slots.drop_first()),
        }
    }
}

/// Whether a record, written and read back, whatever follows it, is refused
/// as a historical record.
pub open spec fn reads_as_historical<T: Record>(v: T::V) -> bool {
    forall|rest: Seq<u8>| #[trigger]
        T::decoded(record_bytes::<T>(v) + rest, family_fields(T::spec_family())) == Err::<
            (T::V, nat),
            Error,
        >(Error::HistoricalRecord)
}

/// Whether a slot is what the store writes: its record can be written; a live
/// record reads back; an archived record, read, is refused as historical.
pub open spec fn slot_is_sound<T: Record>(slot: Slot<T::V>) -> bool {
    let fields = family_fields(T::spec_family());
    &&& T::encoded(slot.value(), fields) is Ok
    &&& slot is Live ==> T::storable(slot.value())
    &&& slot is Archived ==> reads_as_historical::<T>(slot.value())
}

/// Whether every slot is what the store writes.
pub open spec fn log_is_sound<T: Record>(slots: Seq<Slot<T::V>>) -> bool {
    forall|i: int| 0 <= i < slots.len() ==> #[trigger] slot_is_sound::<T>(slots[i])
}

/// The offset of the slot at an index: the bytes of the slots before it.
pub open spec fn slot_offset<T: Record>(slots: Seq<Slot<T::V>>, index: int) -> nat {
    log_bytes::<T>(slots.take(index)).len()
}

/// A record that was appended is read back at the offset it was given.
pub proof fn lemma_append_then_read<T: Record>(image: Seq<u8>, v: T::V)
    requires
        T::storable(v),
        T::encoded(v, family_fields(T::spec_family())) is Ok,
    ensures
        read_at::<T>(
            image + seq![LIVE] + record_bytes::<T>(v),
            image.len() as int,
            family_fields(T::spec_family()),
        ) == Ok::<T::V, Error>(v),
{
    let after = image + seq![LIVE] + record_bytes::<T>(v);
    let input = after.skip(image.len() as int);
    T::lemma_reads_back(v, Seq::empty());
    assert(input.skip(1) =~= record_bytes::<T>(v) + Seq::<u8>::empty());
    assert(input[0] == LIVE);
}

/// A record that was appended and then tombstoned reads as a dead record.
pub proof fn lemma_tombstone_then_read<T: Record>(image: Seq<u8>, v: T::V)
    ensures
        read_at::<T>(
            (image + seq![LIVE] + record_bytes::<T>(v)).update(image.len() as int, TOMBSTONE),
            image.len() as int,
            family_fields(T::spec_family()),
        ) == Err::<T::V, Error>(Error::DeadRecord),
{
    let after = (image + seq![LIVE] + record_bytes::<T>(v)).update(image.len() as int, TOMBSTONE);
    let input = after.skip(image.len() as int);
    assert(input[0] == TOMBSTONE);
}

/// Appending a slot to a log appends its bytes to the image.
pub proof fn lemma_log_push<T: Record>(slots: Seq<Slot<T::V>>, slot: Slot<T::V>)
    ensures
        log_bytes::<T>(slots.push(slot)) == log_bytes::<T>(slots) + slot_bytes::<T>(slot),
        live_values(slots.push(slot)) == live_values(slots) + live_values(seq![slot]),
    decreases slots.len(),
{
    if slots.len() == 0 {
        assert(slots.push(slot).drop_first() =~= Seq::<Slot<T::V>>::empty());
        assert(seq![slot].drop_first() =~= Seq::<Slot<T::V>>::empty());
        assert(slots.push(slot) =~= seq![slot]);
        assert(log_bytes::<T>(slots.push(slot).drop_first()) =~= Seq::<u8>::empty());
        assert(live_values(slots.push(slot).drop_first()) =~= Seq::<T::V>::empty());
        assert(log_bytes::<T>(slots.push(slot)) =~= log_bytes::<T>(slots) + slot_bytes::<T>(slot));
        assert(live_values(slots.push(slot)) =~= live_values(slots) + live_values(seq![slot]));
    } else {
        lemma_log_push::<T>(slots.drop_first(), slot);
        assert(slots.push(slot).drop_first() =~= slots.drop_first().push(slot));
        assert(log_bytes::<T>(slots.push(slot)) =~= log_bytes::<T>(slots) + slot_bytes::<T>(slot));
        assert(live_values(slots.push(slot)) =~= live_values(slots) + live_values(seq![slot]));
    }
}

/// A scan of a sound log yields exactly the records in force, in file order,
/// whatever tombstoned and archived records lie between them.
pub proof fn lemma_scan_yields_live<T: Record>(slots: Seq<Slot<T::V>>)
    requires
        log_is_sound::<T>(slots),
    ensures
        scan_from::<T>(log_bytes::<T>(slots), family_fields(T::spec_family())) == live_values(
            slots,
        ),
    decreases slots.len(),
{
    let fields = family_fields(T::spec_family());
    if slots.len() > 0 {
        let slot = slots[0];
        let rest = slots.drop_first();
        let body = record_bytes::<T>(slot.value());
        let tail = log_bytes::<T>(rest);
        let input = log_bytes::<T>(slots);
        assert(slot_is_sound::<T>(slot));
        assert forall|i: int| 0 <= i < rest.len() implies #[trigger] slot_is_sound::<T>(rest[i]) by {
            assert(slot_is_sound::<T>(slots[i + 1]));
        }
        lemma_scan_yields_live::<T>(rest);
        assert(input =~= seq![slot.liveness()] + body + tail);
        assert(input.skip(1) =~= body + tail);
        assert(input.skip((1 + body.len()) as int) =~= tail);
        T::lemma_is_stepped_over(slot.value(), tail);
        match slot {
            Slot::Live(v) => {
                T::lemma_reads_back(v, tail);
                assert(slot_outcome::<T>(input, fields) == (
                    Ok::<T::V, Error>(v),
                    (1 + body.len()) as nat,
                ));
            },
            Slot::Tombstoned(v) => {
                assert(slot_outcome::<T>(input, fields) == (
                    Err::<T::V, Error>(Error::DeadRecord),
                    (1 + body.len()) as nat,
                ));
                assert(Seq::<T::V>::empty() + live_values(rest) =~= live_values(rest));
            },
            Slot::Archived(v) => {
                let read = T::decoded(body + tail, fields);
                assert(read == Err::<(T::V, nat), Error>(Error::HistoricalRecord));
                assert(slot_outcome::<T>(input, fields) == (
                    Err::<T::V, Error>(Error::HistoricalRecord),
                    (1 + body.len()) as nat,
                ));
                assert(Seq::<T::V>::empty() + live_values(rest) =~= live_values(rest));
            },
        }
    }
}

/// Zeroing the liveness byte of a slot of a log gives the log with that slot
/// tombstoned.
pub proof fn lemma_log_tombstone<T: Record>(slots: Seq<Slot<T::V>>, index: int)
    requires
        0 <= index < slots.len(),
    ensures
        slot_offset::<T>(slots, index) < log_bytes::<T>(slots).len(),
        log_bytes::<T>(slots).update(slot_offset::<T>(slots, index) as int, TOMBSTONE)
            == log_bytes::<T>(slots.update(index, Slot::Tombstoned(slots[index].value()))),
    decreases slots.len(),
{
    let dead = Slot::Tombstoned(slots[index].value());
    let first = slot_bytes::<T>(slots[0]);
    let tail = log_bytes::<T>(slots.drop_first());
    if index == 0 {
        assert(slots.take(0) =~= Seq::<Slot<T::V>>::empty());
        assert(slots.update(0, dead).drop_first() =~= slots.drop_first());
        assert(log_bytes::<T>(slots).update(0, TOMBSTONE) =~= slot_bytes::<T>(dead) + tail);
    } else {
        lemma_log_tombstone::<T>(slots.drop_first(), index - 1);
        assert(slots.take(index).drop_first() =~= slots.drop_first().take(index - 1));
        assert(slots.update(index, dead).drop_first() =~= slots.drop_first().update(
            index - 1,
            dead,
        ));
        let inner = slot_offset::<T>(slots.drop_first(), index - 1);
        assert(slot_offset::<T>(slots, index) == first.len() + inner);
        assert(log_bytes::<T>(slots).update((first.len() + inner) as int, TOMBSTONE) =~= first
            + tail.update(inner as int, TOMBSTONE));
    }
}

/// The image of two logs one after the other is their images one after the
/// other.
pub proof fn lemma_log_concat<T: Record>(a: Seq<Slot<T::V>>, b: Seq<Slot<T::V>>)
    ensures
        log_bytes::<T>(a + b) == log_bytes::<T>(a) + log_bytes::<T>(b),
    decreases a.len(),
{
    if a.len() == 0 {
        assert(a + b =~= b);
        assert(log_bytes::<T>(a) + log_bytes::<T>(b) =~= log_bytes::<T>(b));
    } else {
        lemma_log_concat::<T>(a.drop_first(), b);
        assert((a + b).drop_first() =~= a.drop_first() + b);
        assert(log_bytes::<T>(a + b) =~= log_bytes::<T>(a) + log_bytes::<T>(b));
    }
}

/// What reading at the offset of a slot gives: the record of a live slot,
/// `DeadRecord` for a tombstoned one, `HistoricalRecord` for an archived one.
pub open spec fn slot_reading<T: Record>(slot: Slot<T::V>) -> Result<T::V, Error> {
    match slot {
        Slot::Live(v) => Ok(v),
        Slot::Tombstoned(_) => Err(Error::DeadRecord),
        Slot::Archived(_) => Err(Error::HistoricalRecord),
    }
}

/// Reading a sound log at the offset of one of its slots gives what the slot
/// holds.
pub proof fn lemma_read_at_slot<T: Record>(slots: Seq<Slot<T::V>>, index: int)
    requires
        log_is_sound::<T>(slots),
        0 <= index < slots.len(),
    ensures
        slot_offset::<T>(slots, index) < log_bytes::<T>(slots).len(),
        read_at::<T>(
            log_bytes::<T>(slots),
            slot_offset::<T>(slots, index) as int,
            family_fields(T::spec_family()),
        ) == slot_reading::<T>(slots[index]),
{
    let fields = family_fields(T::spec_family());
    let before = slots.take(index);
    let slot = slots[index];
    let after = slots.skip(index + 1);
    let body = record_bytes::<T>(slot.value());
    let tail = log_bytes::<T>(after);
    assert(slots =~= before + (seq![slot] + after));
    lemma_log_concat::<T>(before, seq![slot] + after);
    assert((seq![slot] + after).drop_first() =~= after);
    let image = log_bytes::<T>(slots);
    let offset = slot_offset::<T>(slots, index) as int;
    let input = image.skip(offset);
    assert(input =~= seq![slot.liveness()] + body + tail);
    assert(input.skip(1) =~= body + tail);
    assert(slot_is_sound::<T>(slot));
    match slot {
        Slot::Live(v) => {
            T::lemma_reads_back(v, tail);
        },
        Slot::Tombstoned(v) => {},
        Slot::Archived(v) => {
            assert(T::decoded(body + tail, fields) == Err::<(T::V, nat), Error>(
                Error::HistoricalRecord,
            ));
        },
    }
}

/// Whether every entry of an index points at the start of a slot whose record
/// has the entry's identifier as its key.
pub open spec fn index_follows_log<T: Record>(
    slots: Seq<Slot<T::V>>,
    index: Map<u128, u64>,
    key: spec_fn(T::V) -> u128,
) -> bool {
    forall|id: u128| #[trigger]
        index.contains_key(id) ==> exists|i: int|
            0 <= i < slots.len() && #[trigger] slot_offset::<T>(slots, i) == index[id] && key(
                slots[i].value(),
            ) == id
}

/// Whether a log is one that explains an image and its index: the image is
/// made of the log's slots, each what the store writes, and the index points
/// at slots only.
pub open spec fn explains<T: Record>(
    slots: Seq<Slot<T::V>>,
    image: Seq<u8>,
    index: Map<u128, u64>,
    key: spec_fn(T::V) -> u128,
) -> bool {
    &&& log_is_sound::<T>(slots)
    &&& log_bytes::<T>(slots) == image
    &&& index_follows_log::<T>(slots, index, key)
}

/// Whether an image and its index are what the store's operations make from
/// nothing: some log explains them.
pub open spec fn family_is_consistent<T: Record>(
    image: Seq<u8>,
    index: Map<u128, u64>,
    key: spec_fn(T::V) -> u128,
) -> bool {
    exists|slots: Seq<Slot<T::V>>| #[trigger] explains::<T>(slots, image, index, key)
}

/// Whether an entry of the index leads to its record: reading at the offset
/// gives a record with the entry's identifier as its key, or reports a dead
/// or historical record.
pub open spec fn entry_leads_to_record<T: Record>(
    image: Seq<u8>,
    index: Map<u128, u64>,
    key: spec_fn(T::V) -> u128,
    id: u128,
) -> bool {
    match read_at::<T>(image, index[id] as int, family_fields(T::spec_family())) {
        Ok(v) => key(v) == id,
        Err(e) => e is DeadRecord || e is HistoricalRecord,
    }
}

/// In a consistent family every entry of the index leads to its record.
pub proof fn lemma_index_leads_to_records<T: Record>(
    image: Seq<u8>,
    index: Map<u128, u64>,
    key: spec_fn(T::V) -> u128,
)
    requires
        family_is_consistent::<T>(image, index, key),
    ensures
        forall|id: u128| #[trigger]
            index.contains_key(id) ==> entry_leads_to_record::<T>(image, index, key, id),
{
    let slots = choose|slots: Seq<Slot<T::V>>| #[trigger] explains::<T>(slots, image, index, key);
    assert forall|id: u128| #[trigger] index.contains_key(id) implies entry_leads_to_record::<T>(
        image,
        index,
        key,
        id,
    ) by {
        let i = choose|i: int|
            0 <= i < slots.len() && #[trigger] slot_offset::<T>(slots, i) == index[id] && key(
                slots[i].value(),
            ) == id;
        lemma_read_at_slot::<T>(slots, i);
    }
}

/// An empty image with an empty index is consistent.
pub proof fn lemma_empty_is_consistent<T: Record>(key: spec_fn(T::V) -> u128)
    ensures
        family_is_consistent::<T>(Seq::empty(), Map::empty(), key),
{
    let slots = Seq::<Slot<T::V>>::empty();
    assert(explains::<T>(slots, Seq::empty(), Map::empty(), key));
}

/// Appending a record and indexing it at the offset it got keeps a family
/// consistent, where the record reads back or is refused as historical.
pub proof fn lemma_append_keeps_consistency<T: Record>(
    image: Seq<u8>,
    index: Map<u128, u64>,
    key: spec_fn(T::V) -> u128,
    v: T::V,
)
    requires
        family_is_consistent::<T>(image, index, key),
        image.len() <= u64::MAX,
        T::encoded(v, family_fields(T::spec_family())) is Ok,
        T::storable(v) || reads_as_historical::<T>(v),
    ensures
        family_is_consistent::<T>(
            image + seq![LIVE] + record_bytes::<T>(v),
            index.insert(key(v), image.len() as u64),
            key,
        ),
{
    let slots = choose|slots: Seq<Slot<T::V>>| #[trigger] explains::<T>(slots, image, index, key);
    let slot = if T::storable(v) {
        Slot::Live(v)
    } else {
        Slot::Archived(v)
    };
    let longer = slots.push(slot);
    let new_image = image + seq![LIVE] + record_bytes::<T>(v);
    let new_index = index.insert(key(v), image.len() as u64);
    lemma_log_push::<T>(slots, slot);
    assert(log_bytes::<T>(longer) =~= new_image);
    assert forall|i: int| 0 <= i < longer.len() implies #[trigger] slot_is_sound::<T>(
        longer[i],
    ) by {
        if i < slots.len() {
            assert(slot_is_sound::<T>(slots[i]));
        }
    }
    assert forall|id: u128| #[trigger] new_index.contains_key(id) implies exists|i: int|
        0 <= i < longer.len() && #[trigger] slot_offset::<T>(longer, i) == new_index[id] && key(
            longer[i].value(),
        ) == id by {
        if id == key(v) {
            let i = slots.len() as int;
            assert(longer.take(i) =~= slots);
            assert(slot_offset::<T>(longer, i) == new_index[id]);
        } else {
            assert(index.contains_key(id));
            let i = choose|i: int|
                0 <= i < slots.len() && #[trigger] slot_offset::<T>(slots, i) == index[id] && key(
                    slots[i].value(),
                ) == id;
            assert(longer.take(i) =~= slots.take(i));
            assert(slot_offset::<T>(longer, i) == new_index[id]);
        }
    }
    assert(explains::<T>(longer, new_image, new_index, key));
}

/// Tombstoning the record that an entry of the index points at keeps a
/// family consistent.
pub proof fn lemma_tombstone_keeps_consistency<T: Record>(
    image: Seq<u8>,
    index: Map<u128, u64>,
    key: spec_fn(T::V) -> u128,
    id: u128,
)
    requires
        family_is_consistent::<T>(image, index, key),
        index.contains_key(id),
    ensures
        family_is_consistent::<T>(image.update(index[id] as int, TOMBSTONE), index, key),
{
    let slots = choose|slots: Seq<Slot<T::V>>| #[trigger] explains::<T>(slots, image, index, key);
    let at = choose|i: int|
        0 <= i < slots.len() && #[trigger] slot_offset::<T>(slots, i) == index[id] && key(
            slots[i].value(),
        ) == id;
    let dead = Slot::Tombstoned(slots[at].value());
    let changed = slots.update(at, dead);
    lemma_log_tombstone::<T>(slots, at);
    assert(slot_is_sound::<T>(slots[at]));
    assert forall|i: int| 0 <= i < changed.len() implies #[trigger] slot_is_sound::<T>(
        changed[i],
    ) by {
        if i != at {
            assert(slot_is_sound::<T>(slots[i]));
        }
    }
    assert forall|other: u128| #[trigger] index.contains_key(other) implies exists|i: int|
        0 <= i < changed.len() && #[trigger] slot_offset::<T>(changed, i) == index[other] && key(
            changed[i].value(),
        ) == other by {
        let i = choose|i: int|
            0 <= i < slots.len() && #[trigger] slot_offset::<T>(slots, i) == index[other] && key(
                slots[i].value(),
            ) == other;
        lemma_offsets_after_tombstone::<T>(slots, at, i);
    }
    assert(explains::<T>(changed, image.update(index[id] as int, TOMBSTONE), index, key));
}

/// Tombstoning a slot moves no slot.
pub proof fn lemma_offsets_after_tombstone<T: Record>(slots: Seq<Slot<T::V>>, at: int, index: int)
    requires
        0 <= at < slots.len(),
        0 <= index <= slots.len(),
    ensures
        slot_offset::<T>(slots.update(at, Slot::Tombstoned(slots[at].value())), index)
            == slot_offset::<T>(slots, index),
{
    let dead = Slot::Tombstoned(slots[at].value());
    let changed = slots.update(at, dead);
    if index <= at {
        assert(changed.take(index) =~= slots.take(index));
    } else {
        let prefix = slots.take(index);
        lemma_log_tombstone::<T>(prefix, at);
        assert(changed.take(index) =~= prefix.update(at, Slot::Tombstoned(prefix[at].value())));
    }
}

} // verus!
