//! The record store: one append-only image per record family, each record
//! behind a liveness byte.
//!
//! An image is the whole content of a family's file. Appending adds a live
//! record at the end, tombstoning zeroes one liveness byte, and nothing else
//! ever changes; whoever owns the files writes the images through.

use vstd::prelude::*;
use crate::error::Error;
use crate::model::{Account, ConversionGraph, Entry, System, Transaction};
use crate::storage::accounts::{lemma_account_roundtrip, lemma_account_writer_keeps_extent, account_writer};
use crate::storage::binary::{
    graph_key_class, lemma_encoded_extent, record_extent, FromBinary, GraphKeyClass, ToBinary,
    LIVE, TOMBSTONE,
};
use crate::storage::conversion_graphs::{
    conversion_graph_writer, lemma_conversion_graph_roundtrip,
    lemma_conversion_graph_writer_keeps_extent,
};
use crate::storage::entries::{entry_writer, lemma_entry_roundtrip, lemma_entry_writer_keeps_extent};
use crate::storage::layout::{
    account_fields, account_layout, conversion_graph_fields, conversion_graph_layout,
    entry_fields, entry_layout, system_fields, system_layout, transaction_fields,
    transaction_layout, BinaryField, BinaryLayout,
};
use crate::storage::systems::{lemma_system_roundtrip, lemma_system_writer_keeps_extent, system_writer};
use crate::storage::transactions::{
    lemma_transaction_roundtrip, lemma_transaction_writer_keeps_extent, metadata_is_storable,
    transaction_writer,
};

verus! {

/// The five record families; each has a file of its own.
#[derive(Debug, Clone, Copy, PartialEq, Eq, Structural, Hash)]
pub enum RecordFamily {
    Accounts,
    Transactions,
    Entries,
    Systems,
    ConversionGraphs,
}

/// The catalog's layout of a family.
pub open spec fn family_fields(family: RecordFamily) -> Seq<BinaryField> {
    match family {
        RecordFamily::Accounts => account_fields(),
        RecordFamily::Transactions => transaction_fields(),
        RecordFamily::Entries => entry_fields(),
        RecordFamily::Systems => system_fields(),
        RecordFamily::ConversionGraphs => conversion_graph_fields(),
    }
}

/// The name of the catalog's layout of a family.
pub open spec fn family_name(family: RecordFamily) -> Seq<char> {
    match family {
        RecordFamily::Accounts => "Account"@,
        RecordFamily::Transactions => "Transaction"@,
        RecordFamily::Entries => "Entry"@,
        RecordFamily::Systems => "System"@,
        RecordFamily::ConversionGraphs => "ConversionGraph"@,
    }
}

/// A record of one of the five families.
pub trait Record: ToBinary + FromBinary {
    /// The family the record belongs to.
    spec fn spec_family() -> RecordFamily;

    /// Whether two records are the same record: they have the same identity
    /// field.
    spec fn same_identity(a: Self::V, b: Self::V) -> bool;

    /// Whether the record is one that reads back as written.
    spec fn storable(v: Self::V) -> bool;

    /// The family the record belongs to.
    fn family() -> (family: RecordFamily)
        ensures
            family == Self::spec_family(),
    ;

    /// Whether two records are the same record.
    fn same_record(&self, other: &Self) -> (same: bool)
        ensures
            same == Self::same_identity(self@, other@),
    ;

    /// A storable record written in the catalog's layout and read back,
    /// whatever follows it, is the same record, and the reading stops where
    /// the writing did.
    proof fn lemma_reads_back(v: Self::V, rest: Seq<u8>)
        requires
            Self::storable(v),
            Self::encoded(v, family_fields(Self::spec_family())) is Ok,
        ensures
            Self::decoded(
                Self::encoded(v, family_fields(Self::spec_family()))->Ok_0 + rest,
                family_fields(Self::spec_family()),
            ) == Ok::<(Self::V, nat), Error>(
                (v, Self::encoded(v, family_fields(Self::spec_family()))->Ok_0.len()),
            ),
    ;

    /// The layout walker steps exactly over a record written in the
    /// catalog's layout, whatever follows it.
    proof fn lemma_is_stepped_over(v: Self::V, rest: Seq<u8>)
        requires
            Self::encoded(v, family_fields(Self::spec_family())) is Ok,
        ensures
            record_extent(
                Self::encoded(v, family_fields(Self::spec_family()))->Ok_0 + rest,
                family_fields(Self::spec_family()),
            ) == Ok::<nat, Error>(
                Self::encoded(v, family_fields(Self::spec_family()))->Ok_0.len(),
            ),
    ;
}

impl Record for Account {
    open spec fn spec_family() -> RecordFamily {
        RecordFamily::Accounts
    }

    open spec fn same_identity(a: Self::V, b: Self::V) -> bool {
        a.id == b.id
    }

    open spec fn storable(v: Self::V) -> bool {
        true
    }

    fn family() -> (family: RecordFamily) {
        RecordFamily::Accounts
    }

    fn same_record(&self, other: &Self) -> (same: bool) {
        self.id == other.id
    }

    proof fn lemma_reads_back(v: Self::V, rest: Seq<u8>) {
        lemma_account_roundtrip(v, rest);
    }

    proof fn lemma_is_stepped_over(v: Self::V, rest: Seq<u8>) {
        lemma_account_writer_keeps_extent(v);
        lemma_encoded_extent(account_writer(v), account_fields(), rest);
    }
}

impl Record for Transaction {
    open spec fn spec_family() -> RecordFamily {
        RecordFamily::Transactions
    }

    open spec fn same_identity(a: Self::V, b: Self::V) -> bool {
        a.id == b.id
    }

    open spec fn storable(v: Self::V) -> bool {
        metadata_is_storable(v.metadata)
    }

    fn family() -> (family: RecordFamily) {
        RecordFamily::Transactions
    }

    fn same_record(&self, other: &Self) -> (same: bool) {
        self.id == other.id
    }

    proof fn lemma_reads_back(v: Self::V, rest: Seq<u8>) {
        lemma_transaction_roundtrip(v, rest);
    }

    proof fn lemma_is_stepped_over(v: Self::V, rest: Seq<u8>) {
        lemma_transaction_writer_keeps_extent(v);
        lemma_encoded_extent(transaction_writer(v), transaction_fields(), rest);
    }
}

impl Record for Entry {
    open spec fn spec_family() -> RecordFamily {
        RecordFamily::Entries
    }

    open spec fn same_identity(a: Self::V, b: Self::V) -> bool {
        a.id == b.id
    }

    open spec fn storable(v: Self::V) -> bool {
        true
    }

    fn family() -> (family: RecordFamily) {
        RecordFamily::Entries
    }

    fn same_record(&self, other: &Self) -> (same: bool) {
        self.id == other.id
    }

    proof fn lemma_reads_back(v: Self::V, rest: Seq<u8>) {
        lemma_entry_roundtrip(v, rest);
    }

    proof fn lemma_is_stepped_over(v: Self::V, rest: Seq<u8>) {
        lemma_entry_writer_keeps_extent(v);
        lemma_encoded_extent(entry_writer(v), entry_fields(), rest);
    }
}

impl Record for System {
    open spec fn spec_family() -> RecordFamily {
        RecordFamily::Systems
    }

    open spec fn same_identity(a: Self::V, b: Self::V) -> bool {
        a.id == b.id
    }

    open spec fn storable(v: Self::V) -> bool {
        true
    }

    fn family() -> (family: RecordFamily) {
        RecordFamily::Systems
    }

    fn same_record(&self, other: &Self) -> (same: bool) {
        self.id == other.id
    }

    proof fn lemma_reads_back(v: Self::V, rest: Seq<u8>) {
        lemma_system_roundtrip(v, rest);
    }

    proof fn lemma_is_stepped_over(v: Self::V, rest: Seq<u8>) {
        lemma_system_writer_keeps_extent(v);
        lemma_encoded_extent(system_writer(v), system_fields(), rest);
    }
}

impl Record for ConversionGraph {
    open spec fn spec_family() -> RecordFamily {
        RecordFamily::ConversionGraphs
    }

    open spec fn same_identity(a: Self::V, b: Self::V) -> bool {
        a.graph == b.graph
    }

    open spec fn storable(v: Self::V) -> bool {
        graph_key_class(v.graph) == GraphKeyClass::Active
    }

    fn family() -> (family: RecordFamily) {
        RecordFamily::ConversionGraphs
    }

    fn same_record(&self, other: &Self) -> (same: bool) {
        self.graph == other.graph
    }

    proof fn lemma_reads_back(v: Self::V, rest: Seq<u8>) {
        lemma_conversion_graph_roundtrip(v, rest);
    }

    proof fn lemma_is_stepped_over(v: Self::V, rest: Seq<u8>) {
        lemma_conversion_graph_writer_keeps_extent(v);
        lemma_encoded_extent(conversion_graph_writer(v), conversion_graph_fields(), rest);
    }
}

/// Whether a scan steps over a record that failed this way and goes on.
pub open spec fn is_ignorable(e: Error) -> bool {
    e is DeadRecord || e is HistoricalRecord || e is CorruptData || e is InvalidData
}

/// Whether a scan steps over a record that failed this way and goes on.
pub fn error_is_ignorable(e: &Error) -> (r: bool)
    ensures
        r == is_ignorable(*e),
{
    match e {
        Error::DeadRecord => true,
        Error::HistoricalRecord => true,
        Error::CorruptData => true,
        Error::InvalidData(_) => true,
        _ => false,
    }
}

/// Whether a liveness byte marks a tombstoned record: any byte but that of
/// a live record does.
pub open spec fn is_tombstone(byte: u8) -> bool {
    byte != LIVE
}

/// What reading one record at the head of the input gives: the record and
/// the bytes it occupies with its liveness byte, or `DeadRecord` where it
/// was tombstoned, or why it cannot be read.
pub open spec fn read_slot<T: FromBinary>(input: Seq<u8>, fields: Seq<BinaryField>) -> Result<
    (T::V, nat),
    Error,
> {
    if input.len() == 0 {
        Err(Error::UnexpectedEof)
    } else if is_tombstone(input[0]) {
        Err(Error::DeadRecord)
    } else {
        match T::decoded(input.skip(1), fields) {
            Err(e) => Err(e),
            Ok((v, used)) => Ok((v, 1 + used)),
        }
    }
}

/// What reading one record at an offset of an image gives.
pub open spec fn read_at<T: FromBinary>(image: Seq<u8>, offset: int, fields: Seq<BinaryField>) -> Result<
    T::V,
    Error,
> {
    if offset < 0 || offset > image.len() {
        Err(Error::UnexpectedEof)
    } else {
        match read_slot::<T>(image.skip(offset), fields) {
            Err(e) => Err(e),
            Ok((v, _)) => Ok(v),
        }
    }
}

/// One step of a scan at the head of the input: what the record there gives,
/// and how many bytes the scan moves on. A tombstoned record and a record
/// that fails in a way a scan ignores are stepped over with the layout
/// walker; where nothing can be stepped over the scan moves by nothing.
pub open spec fn slot_outcome<T: FromBinary>(input: Seq<u8>, fields: Seq<BinaryField>) -> (
    Result<T::V, Error>,
    nat,
) {
    if input.len() == 0 {
        (Err(Error::UnexpectedEof), 0)
    } else if is_tombstone(input[0]) {
        match record_extent(input.skip(1), fields) {
            Err(e) => (Err(e), 0),
            Ok(used) => (Err(Error::DeadRecord), 1 + used),
        }
    } else {
        match T::decoded(input.skip(1), fields) {
            Ok((v, used)) => (Ok(v), 1 + used),
            Err(e) => if is_ignorable(e) {
                match record_extent(input.skip(1), fields) {
                    Err(e2) => (Err(e2), 0),
                    Ok(used) => (Err(e), 1 + used),
                }
            } else {
                (Err(e), 0)
            },
        }
    }
}

/// The records that a scan of the input yields, in file order: the live
/// records that can be read. The scan ends where the input ends or a record
/// runs past its end.
pub open spec fn scan_from<T: FromBinary>(input: Seq<u8>, fields: Seq<BinaryField>) -> Seq<T::V>
    decreases input.len(),
{
    if input.len() == 0 {
        Seq::empty()
    } else {
        let (outcome, used) = slot_outcome::<T>(input, fields);
        let found: Seq<T::V> = match outcome {
            Ok(v) => seq![v],
            Err(_) => Seq::empty(),
        };
        let goes_on = match outcome {
            Ok(_) => true,
            Err(e) => is_ignorable(e),
        };
        if goes_on && 0 < used <= input.len() {
            found + scan_from::<T>(input.skip(used as int), fields)
        } else {
            found
        }
    }
}

/// The views of a sequence of records.
pub open spec fn views<T: View>(items: Seq<T>) -> Seq<T::V> {
    items.map_values(|item: T| item@)
}

/// The images of the five families, and the layouts they are written in.
#[derive(Debug)]
pub struct BinaryStorage {
    pub accounts: Vec<u8>,
    pub transactions: Vec<u8>,
    pub entries: Vec<u8>,
    pub systems: Vec<u8>,
    pub conversion_graphs: Vec<u8>,
    pub layouts: LayoutCatalog,
}

/// The layouts of the five families, as the catalog gives them.
#[derive(Debug)]
pub struct LayoutCatalog {
    account: BinaryLayout,
    transaction: BinaryLayout,
    entry: BinaryLayout,
    system: BinaryLayout,
    conversion_graph: BinaryLayout,
}

impl LayoutCatalog {
    /// Every family has the catalog's layout.
    #[verifier::type_invariant]
    spec fn layouts_are_the_catalog(&self) -> bool {
        &&& self.account.fields@ == account_fields()
        &&& self.transaction.fields@ == transaction_fields()
        &&& self.entry.fields@ == entry_fields()
        &&& self.system.fields@ == system_fields()
        &&& self.conversion_graph.fields@ == conversion_graph_fields()
        &&& self.account.name@ == "Account"@
        &&& self.transaction.name@ == "Transaction"@
        &&& self.entry.name@ == "Entry"@
        &&& self.system.name@ == "System"@
        &&& self.conversion_graph.name@ == "ConversionGraph"@
    }

    /// The five layouts: for each family the layout that the catalog gives
    /// it, with its fields and its name.
    pub(crate) fn new() -> (catalog: LayoutCatalog)
        ensures
            forall|family: RecordFamily|
                (#[trigger] catalog.spec_layout(family)).fields@ == family_fields(family)
                    && catalog.spec_layout(family).name@ == family_name(family),
    {
        LayoutCatalog {
            account: account_layout(),
            transaction: transaction_layout(),
            entry: entry_layout(),
            system: system_layout(),
            conversion_graph: conversion_graph_layout(),
        }
    }

    /// The layout of a family.
    pub fn layout(&self, family: RecordFamily) -> (layout: &BinaryLayout)
        ensures
            *layout == self.spec_layout(family),
            layout.fields@ == family_fields(family),
            layout.name@ == family_name(family),
    {
        proof {
            use_type_invariant(self);
        }
        match family {
            RecordFamily::Accounts => &self.account,
            RecordFamily::Transactions => &self.transaction,
            RecordFamily::Entries => &self.entry,
            RecordFamily::Systems => &self.system,
            RecordFamily::ConversionGraphs => &self.conversion_graph,
        }
    }

    /// The layout that the catalog holds for a family.
    pub closed spec fn spec_layout(&self, family: RecordFamily) -> BinaryLayout {
        match family {
            RecordFamily::Accounts => self.account,
            RecordFamily::Transactions => self.transaction,
            RecordFamily::Entries => self.entry,
            RecordFamily::Systems => self.system,
            RecordFamily::ConversionGraphs => self.conversion_graph,
        }
    }
}

/// Reading a store whose records carry a liveness byte.
pub trait TombstoneReader {
    /// The image of a family.
    spec fn image(&self, family: RecordFamily) -> Seq<u8>;

    /// Whether a scan steps over a record that failed this way and goes on.
    fn is_ignorable_error(&self, e: &Error) -> (r: bool)
        ensures
            r == is_ignorable(*e),
    ;

    /// Whether a liveness byte marks a tombstoned record.
    fn is_tombstone_byte(&self, byte: u8) -> (r: bool)
        ensures
            r == is_tombstone(byte),
    ;

    /// One step of a scan at `pos`: what the record there gives, and the
    /// position at which the scan goes on.
    fn read_or_skip<T: Record>(&self, pos: usize) -> (r: (Result<T, Error>, usize))
        requires
            pos <= self.image(T::spec_family()).len(),
        ensures
            r.1 == pos + slot_outcome::<T>(
                self.image(T::spec_family()).skip(pos as int),
                family_fields(T::spec_family()),
            ).1,
            r.1 <= self.image(T::spec_family()).len(),
            match slot_outcome::<T>(
                self.image(T::spec_family()).skip(pos as int),
                family_fields(T::spec_family()),
            ).0 {
                Ok(v) => r.0 is Ok && r.0->Ok_0@ == v,
                Err(e) => r.0 == Err::<T, Error>(e),
            },
    ;

    /// Scans the image of the record's family from its start: the live
    /// records that can be read, in file order.
    fn read<T: Record>(&self) -> (items: Vec<T>)
        ensures
            views(items@) == scan_from::<T>(
                self.image(T::spec_family()),
                family_fields(T::spec_family()),
            ),
    ;
}

/// Writing to a store whose records carry a liveness byte.
pub trait TombstoneWriter: TombstoneReader + Sized {
    /// Whether two stores differ at most in the image of one family.
    spec fn same_but(&self, other: &Self, family: RecordFamily) -> bool;

    /// Marks the record at `offset` as tombstoned, after checking that it is
    /// the record given: the record there must be live and readable, else the
    /// reading's error is returned, and must have the identity of `item`, else
    /// `WrongRecord`. On an error nothing changes.
    fn tombstone<T: Record>(&mut self, item: T, offset: u64) -> (r: Result<(), Error>)
        ensures
            final(self).same_but(old(self), T::spec_family()),
            match read_at::<T>(
                old(self).image(T::spec_family()),
                offset as int,
                family_fields(T::spec_family()),
            ) {
                Err(e) => r == Err::<(), Error>(e) && final(self).image(T::spec_family()) == old(
                    self,
                ).image(T::spec_family()),
                Ok(v) => if T::same_identity(v, item@) {
                    r is Ok && final(self).image(T::spec_family()) == old(self).image(
                        T::spec_family(),
                    ).update(offset as int, TOMBSTONE)
                } else {
                    r == Err::<(), Error>(Error::WrongRecord) && final(self).image(
                        T::spec_family(),
                    ) == old(self).image(T::spec_family())
                },
            },
    ;

    /// Appends the record as a live record and returns the offset of its
    /// liveness byte with the record. A record that cannot be written changes
    /// nothing.
    fn write<T: Record>(&mut self, item: T) -> (r: Result<(u64, T), Error>)
        ensures
            final(self).same_but(old(self), T::spec_family()),
            match T::encoded(item@, family_fields(T::spec_family())) {
                Ok(bytes) => r is Ok && r->Ok_0.0 == old(self).image(T::spec_family()).len()
                    && r->Ok_0.1 == item && final(self).image(T::spec_family()) == old(
                    self,
                ).image(T::spec_family()) + seq![LIVE] + bytes,
                Err(e) => r == Err::<(u64, T), Error>(e) && final(self).image(T::spec_family())
                    == old(self).image(T::spec_family()),
            },
    ;
}

impl BinaryStorage {

    /// A store over the five images, in the catalog's layouts.
    pub fn new(
        accounts: Vec<u8>,
        transactions: Vec<u8>,
        entries: Vec<u8>,
        systems: Vec<u8>,
        conversion_graphs: Vec<u8>,
    ) -> (store: BinaryStorage)
        ensures
            store.image(RecordFamily::Accounts) == accounts@,
            store.image(RecordFamily::Transactions) == transactions@,
            store.image(RecordFamily::Entries) == entries@,
            store.image(RecordFamily::Systems) == systems@,
            store.image(RecordFamily::ConversionGraphs) == conversion_graphs@,
    {
        BinaryStorage {
            accounts,
            transactions,
            entries,
            systems,
            conversion_graphs,
            layouts: LayoutCatalog::new(),
        }
    }

    fn image_of(&self, family: RecordFamily) -> (image: &Vec<u8>)
        ensures
            image@ == self.image(family),
    {
        match family {
            RecordFamily::Accounts => &self.accounts,
            RecordFamily::Transactions => &self.transactions,
            RecordFamily::Entries => &self.entries,
            RecordFamily::Systems => &self.systems,
            RecordFamily::ConversionGraphs => &self.conversion_graphs,
        }
    }

    fn layout_of(&self, family: RecordFamily) -> (layout: &BinaryLayout)
        ensures
            layout.fields@ == family_fields(family),
    {
        self.layouts.layout(family)
    }

    /// The number of bytes in the image of a family: the offset that the
    /// next record written will get.
    pub fn len(&self, family: RecordFamily) -> (n: usize)
        ensures
            n == self.image(family).len(),
    {
        self.image_of(family).len()
    }

    /// Reads the record at an offset. A tombstoned record is reported as
    /// `DeadRecord`; an offset at or past the end as `UnexpectedEof`.
    pub fn read_single<T: Record>(&self, offset: u64) -> (r: Result<T, Error>)
        ensures
            match read_at::<T>(
                self.image(T::spec_family()),
                offset as int,
                family_fields(T::spec_family()),
            ) {
                Ok(v) => r is Ok && r->Ok_0@ == v,
                Err(e) => r == Err::<T, Error>(e),
            },
    {
        let family = T::family();
        let data = self.image_of(family);
        let layout = self.layout_of(family);
        if offset > data.len() as u64 {
            return Err(Error::UnexpectedEof);
        }
        let pos: usize = offset as usize;
        if pos == data.len() {
            return Err(Error::UnexpectedEof);
        }
        if data[pos] != LIVE {
            return Err(Error::DeadRecord);
        }
        proof {
            assert(data@.skip(pos as int).skip(1) =~= data@.skip(pos + 1));
        }
        match T::from_binary(data.as_slice(), pos + 1, layout) {
            Ok((item, _)) => Ok(item),
            Err(e) => Err(e),
        }
    }
}

impl TombstoneReader for BinaryStorage {
    open spec fn image(&self, family: RecordFamily) -> Seq<u8> {
        match family {
            RecordFamily::Accounts => self.accounts@,
            RecordFamily::Transactions => self.transactions@,
            RecordFamily::Entries => self.entries@,
            RecordFamily::Systems => self.systems@,
            RecordFamily::ConversionGraphs => self.conversion_graphs@,
        }
    }

    fn is_ignorable_error(&self, e: &Error) -> (r: bool) {
        error_is_ignorable(e)
    }

    fn is_tombstone_byte(&self, byte: u8) -> (r: bool) {
        byte != LIVE
    }

    fn read_or_skip<T: Record>(&self, pos: usize) -> (r: (Result<T, Error>, usize)) {
        let family = T::family();
        let data = self.image_of(family);
        let layout = self.layout_of(family);
        if pos == data.len() {
            return (Err(Error::UnexpectedEof), pos);
        }
        proof {
            assert(data@.skip(pos as int).skip(1) =~= data@.skip(pos + 1));
        }
        if self.is_tombstone_byte(data[pos]) {
            return match T::skip_bytes(data.as_slice(), pos + 1, layout) {
                Ok(next) => (Err(Error::DeadRecord), next),
                Err(e) => (Err(e), pos),
            };
        }
        match T::from_binary(data.as_slice(), pos + 1, layout) {
            Ok((item, next)) => (Ok(item), next),
            Err(e) => {
                if self.is_ignorable_error(&e) {
                    match T::skip_bytes(data.as_slice(), pos + 1, layout) {
                        Ok(next) => (Err(e), next),
                        Err(e2) => (Err(e2), pos),
                    }
                } else {
                    (Err(e), pos)
                }
            },
        }
    }

    fn read<T: Record>(&self) -> (items: Vec<T>) {
        let ghost image = self.image(T::spec_family());
        let ghost fields = family_fields(T::spec_family());
        let total = self.len(T::family());
        let mut items: Vec<T> = Vec::new();
        let mut pos: usize = 0;
        proof {
            assert(image.skip(0) =~= image);
            assert(views(items@) =~= Seq::<T::V>::empty());
        }
        while pos < total
            invariant
                pos <= total == image.len(),
                image == self.image(T::spec_family()),
                fields == family_fields(T::spec_family()),
                scan_from::<T>(image, fields) == views(items@) + scan_from::<T>(
                    image.skip(pos as int),
                    fields,
                ),
            ensures
                scan_from::<T>(image, fields) == views(items@),
            decreases total - pos,
        {
            let ghost before = views(items@);
            let ghost input = image.skip(pos as int);
            let (outcome, next) = self.read_or_skip::<T>(pos);
            proof {
                assert(input.skip(next - pos) =~= image.skip(next as int));
            }
            let goes_on: bool = match outcome {
                Ok(item) => {
                    proof {
                        assert(views(items@.push(item)) =~= before + seq![item@]);
                    }
                    items.push(item);
                    true
                },
                Err(e) => {
                    proof {
                        assert(before + Seq::<T::V>::empty() =~= before);
                    }
                    self.is_ignorable_error(&e)
                },
            };
            if !goes_on || next <= pos {
                proof {
                    assert(scan_from::<T>(image, fields) =~= views(items@));
                }
                break ;
            }
            proof {
                let found: Seq<T::V> = match slot_outcome::<T>(input, fields).0 {
                    Ok(v) => seq![v],
                    Err(_) => Seq::empty(),
                };
                assert(before + (found + scan_from::<T>(image.skip(next as int), fields))
                    =~= views(items@) + scan_from::<T>(image.skip(next as int), fields));
            }
            pos = next;
        }
        proof {
            if pos >= total {
                assert(image.skip(pos as int).len() == 0);
                assert(views(items@) + Seq::<T::V>::empty() =~= views(items@));
            }
        }
        items
    }
}

impl TombstoneWriter for BinaryStorage {
    open spec fn same_but(&self, other: &Self, family: RecordFamily) -> bool {
        forall|f: RecordFamily| f != family ==> #[trigger] self.image(f) == other.image(f)
    }

    fn tombstone<T: Record>(&mut self, item: T, offset: u64) -> (r: Result<(), Error>) {
        let family = T::family();
        let found: T = match self.read_single::<T>(offset) {
            Ok(found) => found,
            Err(e) => {
                return Err(e);
            },
        };
        if !found.same_record(&item) {
            return Err(Error::WrongRecord);
        }
        let total = self.len(family);
        proof {
            let image = self.image(T::spec_family());
            assert(offset <= image.len());
            assert(image.skip(offset as int).len() > 0);
        }
        if offset >= total as u64 {
            return Err(Error::UnexpectedEof);
        }
        let pos: usize = offset as usize;
        match family {
            RecordFamily::Accounts => self.accounts.set(pos, TOMBSTONE),
            RecordFamily::Transactions => self.transactions.set(pos, TOMBSTONE),
            RecordFamily::Entries => self.entries.set(pos, TOMBSTONE),
            RecordFamily::Systems => self.systems.set(pos, TOMBSTONE),
            RecordFamily::ConversionGraphs => self.conversion_graphs.set(pos, TOMBSTONE),
        }
        Ok(())
    }

    fn write<T: Record>(&mut self, item: T) -> (r: Result<(u64, T), Error>) {
        let family = T::family();
        let offset: u64 = self.len(family) as u64;
        let layout = self.layouts.layout(family);
        let written = match family {
            RecordFamily::Accounts => item.to_binary(&mut self.accounts, layout),
            RecordFamily::Transactions => item.to_binary(&mut self.transactions, layout),
            RecordFamily::Entries => item.to_binary(&mut self.entries, layout),
            RecordFamily::Systems => item.to_binary(&mut self.systems, layout),
            RecordFamily::ConversionGraphs => item.to_binary(&mut self.conversion_graphs, layout),
        };
        match written {
            Ok(()) => Ok((offset, item)),
            Err(e) => Err(e),
        }
    }
}

} // verus!
