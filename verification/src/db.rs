//! The ledger: the five record families in memory, the images they are stored
//! in, and the indexes that find them.
//!
//! Every operation validates first and writes afterwards, so that a refusal
//! leaves the ledger as it was.

use vstd::prelude::*;
use std::collections::HashMap;
use crate::error::{Error, Invalid, Missing};
use crate::index::btree::{entries_of_bytes, is_flat_form, BTreeIndex};
use crate::model::{
    Account, AccountView, ConversionGraph, ConversionGraphView, Double, Entry, System,
    SystemView, Transaction, TransactionView,
};
use vstd::string::StringExecFns;
use crate::platform::{
    current_seconds, format_rfc3339, rfc3339_text, split_whitespace, views_of, whitespace_tokens,
};
use crate::storage::binary::{ToBinary, LIVE, TOMBSTONE};
use crate::storage::fields::str_eq;
use crate::storage::store::{read_at, Record};
use crate::storage::entries::lemma_entry_roundtrip;
use crate::storage::layout::{
    account_fields, conversion_graph_fields, conversion_graph_layout, entry_fields,
    system_fields, transaction_fields, transaction_layout,
};
use crate::storage::store::{
    scan_from, views, BinaryStorage, RecordFamily, TombstoneReader, TombstoneWriter,
};
use crate::util::uuid::{derived_uuid, generate_deterministic_uuid, rederived_uuid, Uuid};

verus! {

/// The views of the values of a map.
pub open spec fn value_views<T: View>(map: Map<u128, T>) -> Map<u128, T::V> {
    map.map_values(|value: T| value@)
}

/// The map that a sequence of records makes under a key; a later record
/// replaces an earlier one with the same key.
pub open spec fn keyed<V>(items: Seq<V>, key: spec_fn(V) -> u128) -> Map<u128, V>
    decreases items.len(),
{
    if items.len() == 0 {
        Map::empty()
    } else {
        keyed(items.drop_last(), key).insert(key(items.last()), items.last())
    }
}

/// The key that a transaction is indexed under: the identifier derived from
/// its own.
pub open spec fn transaction_index_key() -> spec_fn(TransactionView) -> u128 {
    |v: TransactionView| rederived_uuid(v.id).value
}

/// The key that an entry is indexed under: the identifier derived from its
/// own.
pub open spec fn entry_index_key() -> spec_fn(Entry) -> u128 {
    |v: Entry| rederived_uuid(v.id).value
}

/// The key of an account: its identifier.
pub open spec fn account_key() -> spec_fn(AccountView) -> u128 {
    |v: AccountView| v.id.value
}

/// The key of a transaction: its identifier.
pub open spec fn transaction_key() -> spec_fn(TransactionView) -> u128 {
    |v: TransactionView| v.id.value
}

/// The key of a system: the identifier derived from its code.
pub open spec fn system_key() -> spec_fn(SystemView) -> u128 {
    |v: SystemView| derived_uuid(v.id).value
}

/// The key of a conversion graph: the identifier derived from its key string.
pub open spec fn conversion_graph_key() -> spec_fn(ConversionGraphView) -> u128 {
    |v: ConversionGraphView| derived_uuid(v.graph).value
}

/// The system that an entry posts to: the identifier derived from the system
/// code of its account.
pub open spec fn entry_system(accounts: Map<u128, AccountView>, entry: Entry) -> u128 {
    derived_uuid(accounts[entry.account_id.value].system_id).value
}

/// The systems that the entries post to, each once, in the order in which
/// the entries first touch them.
pub open spec fn systems_touched(accounts: Map<u128, AccountView>, entries: Seq<Entry>) -> Seq<u128>
    decreases entries.len(),
{
    if entries.len() == 0 {
        Seq::empty()
    } else {
        let before = systems_touched(accounts, entries.drop_last());
        let system = entry_system(accounts, entries.last());
        if before.contains(system) {
            before
        } else {
            before.push(system)
        }
    }
}

/// Whether every entry posts to an account that exists; else the first
/// account that is missing.
pub open spec fn accounts_verdict(accounts: Map<u128, AccountView>, entries: Seq<Entry>) -> Result<
    (),
    Error,
>
    decreases entries.len(),
{
    if entries.len() == 0 {
        Ok(())
    } else if !accounts.contains_key(entries[0].account_id.value) {
        Err(Error::NotFound(Missing::Account(entries[0].account_id)))
    } else {
        accounts_verdict(accounts, entries.drop_first())
    }
}

/// Whether every system touched exists and its amounts balance; else what is
/// wrong with the first system that fails, a missing system before an
/// imbalance.
pub open spec fn groups_verdict(
    systems: Map<u128, SystemView>,
    touched: Seq<u128>,
    sums: Seq<Double>,
) -> Result<(), Error>
    decreases touched.len(),
{
    if touched.len() == 0 {
        Ok(())
    } else if !systems.contains_key(touched[0]) {
        Err(Error::NotFound(Missing::System(Uuid { value: touched[0] })))
    } else if sums[0].spec_exceeds_epsilon() {
        Err(Error::InvalidData(Invalid::UnbalancedSystem(Uuid { value: touched[0] })))
    } else {
        groups_verdict(systems, touched.drop_first(), sums.drop_first())
    }
}

/// Whether a transaction may be recorded, and if not, why not. The checks
/// come in this order: the total balances; every account exists; there is a
/// sum for each system touched; every system exists and balances; the
/// transaction can be written.
pub open spec fn transaction_verdict(
    state: LedgerView,
    tx: TransactionView,
    entries: Seq<Entry>,
    total: Double,
    sums: Seq<Double>,
) -> Result<(), Error> {
    if total.spec_exceeds_epsilon() {
        Err(Error::InvalidData(Invalid::UnbalancedTransaction))
    } else if accounts_verdict(state.accounts, entries) is Err {
        accounts_verdict(state.accounts, entries)
    } else if sums.len() != systems_touched(state.accounts, entries).len() {
        Err(Error::InvalidData(Invalid::SumsMismatch))
    } else if groups_verdict(state.systems, systems_touched(state.accounts, entries), sums) is Err {
        groups_verdict(state.systems, systems_touched(state.accounts, entries), sums)
    } else {
        match Transaction::encoded(tx, transaction_fields()) {
            Err(e) => Err(e),
            Ok(_) => Ok(()),
        }
    }
}

/// The ledger after a system was appended, indexed and entered in the map
/// under the identifier derived from its code.
pub open spec fn with_system(state: LedgerView, system: SystemView) -> LedgerView {
    LedgerView {
        systems_image: state.systems_image + seq![LIVE] + System::encoded(
            system,
            system_fields(),
        )->Ok_0,
        systems: state.systems.insert(derived_uuid(system.id).value, system),
        system_index: state.system_index.insert(
            derived_uuid(system.id).value,
            state.systems_image.len() as u64,
        ),
        ..state
    }
}

/// The ledger after an account was appended, indexed and entered in the map
/// under its identifier.
pub open spec fn with_account(state: LedgerView, account: AccountView) -> LedgerView {
    LedgerView {
        accounts_image: state.accounts_image + seq![LIVE] + Account::encoded(
            account,
            account_fields(),
        )->Ok_0,
        accounts: state.accounts.insert(account.id.value, account),
        account_index: state.account_index.insert(
            account.id.value,
            state.accounts_image.len() as u64,
        ),
        ..state
    }
}

/// The bytes of an entry in the catalog's layout.
pub open spec fn entry_bytes(entry: Entry) -> Seq<u8> {
    Entry::encoded(entry, entry_fields())->Ok_0
}

/// The ledger after the entries were appended, indexed under the identifier
/// derived from their own, and added to the entries in memory.
pub open spec fn with_entries(state: LedgerView, entries: Seq<Entry>) -> LedgerView
    decreases entries.len(),
{
    if entries.len() == 0 {
        state
    } else {
        let before = with_entries(state, entries.drop_last());
        let entry = entries.last();
        LedgerView {
            entries_image: before.entries_image + seq![LIVE] + entry_bytes(entry),
            entry_index: before.entry_index.insert(
                rederived_uuid(entry.id).value,
                before.entries_image.len() as u64,
            ),
            entries: before.entries.push(entry),
            ..before
        }
    }
}

/// The ledger after the transaction was appended, indexed under the
/// identifier derived from its own, and entered in the map under its own.
pub open spec fn with_transaction(state: LedgerView, tx: TransactionView) -> LedgerView {
    LedgerView {
        transactions_image: state.transactions_image + seq![LIVE] + Transaction::encoded(
            tx,
            transaction_fields(),
        )->Ok_0,
        transaction_index: state.transaction_index.insert(
            rederived_uuid(tx.id).value,
            state.transactions_image.len() as u64,
        ),
        transactions: state.transactions.insert(tx.id.value, tx),
        ..state
    }
}

/// The systems that a list of entries posts to, and for each entry the place
/// of its system among them.
#[derive(Debug)]
pub struct SystemGroups {
    /// The systems, each once, in the order in which the entries first touch
    /// them.
    pub systems: Vec<Uuid>,
    /// For each entry, the index of its system in `systems`.
    pub group_of: Vec<usize>,
}

/// The identifier values of a sequence of identifiers.
pub open spec fn uuid_values(ids: Seq<Uuid>) -> Seq<u128> {
    ids.map_values(|id: Uuid| id.value)
}

/// The key of the conversion from one system to another.
pub open spec fn direction_key(from: Seq<char>, to: Seq<char>) -> Seq<char> {
    from + " -> "@ + to
}

/// The key of an archived conversion: the key it had, in square brackets,
/// between the instant it held from and the instant it was replaced.
pub open spec fn bracketed_key(since: Seq<char>, key: Seq<char>, until: Seq<char>) -> Seq<char> {
    since + "["@ + key + "]"@ + until
}

/// The record that archives an existing graph at the instant `now`, where
/// both instants have a calendar form.
pub open spec fn historical_record(existing: ConversionGraphView, now: i64) -> Result<
    ConversionGraphView,
    Error,
> {
    if rfc3339_text(existing.rate_since) is Some && rfc3339_text(now) is Some {
        Ok(
            ConversionGraphView {
                graph: bracketed_key(
                    rfc3339_text(existing.rate_since)->0,
                    existing.graph,
                    rfc3339_text(now)->0,
                ),
                rate: existing.rate,
                rate_since: existing.rate_since,
            },
        )
    } else {
        Err(Error::InvalidData(Invalid::UnrepresentableTime))
    }
}

/// The conversion graphs image after the live record of an existing graph
/// was tombstoned. The record is looked up in the index under the identifier
/// derived from its key. Where the index has no offset for it, or the record
/// there is dead or archived already, the image stays as it is; where another
/// record is there, that is an error.
pub open spec fn image_without(state: LedgerView, existing: ConversionGraphView) -> Result<
    Seq<u8>,
    Error,
> {
    let uuid = derived_uuid(existing.graph).value;
    if state.conversion_graph_index.contains_key(uuid) {
        let offset = state.conversion_graph_index[uuid];
        match read_at::<ConversionGraph>(
            state.conversion_graphs_image,
            offset as int,
            conversion_graph_fields(),
        ) {
            Ok(found) => if found.graph == existing.graph {
                Ok(state.conversion_graphs_image.update(offset as int, TOMBSTONE))
            } else {
                Err(Error::WrongRecord)
            },
            Err(e) => if e is DeadRecord || e is HistoricalRecord {
                Ok(state.conversion_graphs_image)
            } else {
                Err(e)
            },
        }
    } else {
        Ok(state.conversion_graphs_image)
    }
}

/// The ledger after a conversion graph was appended, indexed and entered in
/// the map under the identifier derived from its key.
pub open spec fn with_graph(state: LedgerView, graph: ConversionGraphView) -> LedgerView {
    LedgerView {
        conversion_graphs_image: state.conversion_graphs_image + seq![LIVE]
            + ConversionGraph::encoded(graph, conversion_graph_fields())->Ok_0,
        conversion_graph_index: state.conversion_graph_index.insert(
            derived_uuid(graph.graph).value,
            state.conversion_graphs_image.len() as u64,
        ),
        conversion_graphs: state.conversion_graphs.insert(derived_uuid(graph.graph).value, graph),
        ..state
    }
}

/// The ledger after an existing graph was archived at the instant `now`: its
/// live record tombstoned, its historical record appended. Fails, in this
/// order, where an instant has no calendar form, where the historical record
/// cannot be written, and where the live record cannot be tombstoned.
pub open spec fn archived(state: LedgerView, existing: ConversionGraphView, now: i64) -> Result<
    LedgerView,
    Error,
> {
    match historical_record(existing, now) {
        Err(e) => Err(e),
        Ok(historical) => match ConversionGraph::encoded(historical, conversion_graph_fields()) {
            Err(e) => Err(e),
            Ok(_) => match image_without(state, existing) {
                Err(e) => Err(e),
                Ok(image) => Ok(
                    with_graph(LedgerView { conversion_graphs_image: image, ..state }, historical),
                ),
            },
        },
    }
}

/// The graph that a direction is stored as.
pub open spec fn direction_record(from: Seq<char>, to: Seq<char>, rate: Double, now: i64) -> ConversionGraphView {
    ConversionGraphView { graph: direction_key(from, to), rate, rate_since: now }
}

/// The ledger after one direction was set at the instant `now`: the graph in
/// force for the direction, if there is one, is archived, and the new graph
/// is appended. Fails where the new graph cannot be written or the archiving
/// fails.
#[verifier::opaque]
pub open spec fn with_direction(
    state: LedgerView,
    from: Seq<char>,
    to: Seq<char>,
    rate: Double,
    now: i64,
) -> Result<LedgerView, Error> {
    let graph = direction_record(from, to, rate, now);
    let uuid = derived_uuid(graph.graph).value;
    match ConversionGraph::encoded(graph, conversion_graph_fields()) {
        Err(e) => Err(e),
        Ok(_) => if state.conversion_graphs.contains_key(uuid) {
            match archived(state, state.conversion_graphs[uuid], now) {
                Err(e) => Err(e),
                Ok(cleared) => Ok(with_graph(cleared, graph)),
            }
        } else {
            Ok(with_graph(state, graph))
        },
    }
}

/// What setting the directions that a direction token names gives: whether
/// it is refused, and the ledger afterwards. `->` sets the direction from
/// `from` to `to`, `<-` the one from `to` to `from`, `<->` both, the second at
/// the inverse rate. A refusal leaves the ledger as it was, but for one case:
/// where `<->` sets the first direction and then fails on the second, the
/// first stays set.
pub open spec fn directions_outcome(
    state: LedgerView,
    from: Seq<char>,
    direction: Seq<char>,
    to: Seq<char>,
    rate: Double,
    inverse_rate: Double,
    now: i64,
) -> (Result<(), Error>, LedgerView) {
    if direction == "->"@ {
        match with_direction(state, from, to, rate, now) {
            Err(e) => (Err(e), state),
            Ok(after) => (Ok(()), after),
        }
    } else if direction == "<-"@ {
        match with_direction(state, to, from, rate, now) {
            Err(e) => (Err(e), state),
            Ok(after) => (Ok(()), after),
        }
    } else if direction == "<->"@ {
        match with_direction(state, from, to, rate, now) {
            Err(e) => (Err(e), state),
            Ok(first) => match with_direction(first, to, from, inverse_rate, now) {
                Err(e) => (Err(e), first),
                Ok(after) => (Ok(()), after),
            },
        }
    } else {
        (Err(Error::InvalidData(Invalid::UnknownDirection)), state)
    }
}

/// What a graph expression asks for: whether it is refused, and the ledger
/// afterwards. An expression is three tokens, `FROM`, a direction and `TO`;
/// both systems must exist; then the directions are set.
pub open spec fn conversion_outcome(
    state: LedgerView,
    tokens: Seq<Seq<char>>,
    rate: Double,
    inverse_rate: Double,
    now: i64,
) -> (Result<(), Error>, LedgerView) {
    if tokens.len() != 3 {
        (Err(Error::InvalidData(Invalid::BadGraphSyntax)), state)
    } else if !state.systems.contains_key(derived_uuid(tokens[0]).value) {
        (Err(Error::NotFound(Missing::SourceSystem)), state)
    } else if !state.systems.contains_key(derived_uuid(tokens[2]).value) {
        (Err(Error::NotFound(Missing::TargetSystem)), state)
    } else {
        directions_outcome(state, tokens[0], tokens[1], tokens[2], rate, inverse_rate, now)
    }
}

/// What a ledger holds.
#[verifier::ext_equal]
pub struct LedgerView {
    pub accounts_image: Seq<u8>,
    pub transactions_image: Seq<u8>,
    pub entries_image: Seq<u8>,
    pub systems_image: Seq<u8>,
    pub conversion_graphs_image: Seq<u8>,
    pub accounts: Map<u128, AccountView>,
    pub transactions: Map<u128, TransactionView>,
    pub entries: Seq<Entry>,
    pub systems: Map<u128, SystemView>,
    pub conversion_graphs: Map<u128, ConversionGraphView>,
    pub account_index: Map<u128, u64>,
    pub transaction_index: Map<u128, u64>,
    pub entry_index: Map<u128, u64>,
    pub system_index: Map<u128, u64>,
    pub conversion_graph_index: Map<u128, u64>,
}

/// The images of the files of a ledger, data and indexes.
#[derive(Debug)]
pub struct LedgerFiles {
    pub accounts: Vec<u8>,
    pub transactions: Vec<u8>,
    pub entries: Vec<u8>,
    pub systems: Vec<u8>,
    pub conversion_graphs: Vec<u8>,
    pub account_index: Vec<u8>,
    pub transaction_index: Vec<u8>,
    pub entry_index: Vec<u8>,
    pub system_index: Vec<u8>,
    pub conversion_graph_index: Vec<u8>,
}

impl LedgerFiles {
    /// The files of a ledger that holds nothing yet: all empty.
    pub fn new() -> (files: LedgerFiles)
        ensures
            files.accounts@.len() == 0,
            files.transactions@.len() == 0,
            files.entries@.len() == 0,
            files.systems@.len() == 0,
            files.conversion_graphs@.len() == 0,
            files.account_index@.len() == 0,
            files.transaction_index@.len() == 0,
            files.entry_index@.len() == 0,
            files.system_index@.len() == 0,
            files.conversion_graph_index@.len() == 0,
    {
        LedgerFiles {
            accounts: Vec::new(),
            transactions: Vec::new(),
            entries: Vec::new(),
            systems: Vec::new(),
            conversion_graphs: Vec::new(),
            account_index: Vec::new(),
            transaction_index: Vec::new(),
            entry_index: Vec::new(),
            system_index: Vec::new(),
            conversion_graph_index: Vec::new(),
        }
    }
}

/// The flat forms of the five indexes.
#[derive(Debug)]
pub struct IndexFiles {
    pub account_index: Vec<u8>,
    pub transaction_index: Vec<u8>,
    pub entry_index: Vec<u8>,
    pub system_index: Vec<u8>,
    pub conversion_graph_index: Vec<u8>,
}

/// What loading the given files gives: the images as they are, the maps made
/// from a scan of each image, the indexes made from their flat forms.
pub open spec fn loaded(files: LedgerFiles) -> LedgerView {
    LedgerView {
        accounts_image: files.accounts@,
        transactions_image: files.transactions@,
        entries_image: files.entries@,
        systems_image: files.systems@,
        conversion_graphs_image: files.conversion_graphs@,
        accounts: keyed(scan_from::<Account>(files.accounts@, account_fields()), account_key()),
        transactions: keyed(
            scan_from::<Transaction>(files.transactions@, transaction_fields()),
            transaction_key(),
        ),
        entries: scan_from::<Entry>(files.entries@, entry_fields()),
        systems: keyed(scan_from::<System>(files.systems@, system_fields()), system_key()),
        conversion_graphs: keyed(
            scan_from::<ConversionGraph>(files.conversion_graphs@, conversion_graph_fields()),
            conversion_graph_key(),
        ),
        account_index: entries_of_bytes(files.account_index@),
        transaction_index: entries_of_bytes(files.transaction_index@),
        entry_index: entries_of_bytes(files.entry_index@),
        system_index: entries_of_bytes(files.system_index@),
        conversion_graph_index: entries_of_bytes(files.conversion_graph_index@),
    }
}

/// The ledger: the store, the records in memory, and the indexes.
#[derive(Debug)]
pub struct Ledger {
    pub storage: BinaryStorage,
    pub accounts: HashMap<u128, Account>,
    pub transactions: HashMap<u128, Transaction>,
    pub entries: Vec<Entry>,
    pub systems: HashMap<u128, System>,
    pub conversion_graphs: HashMap<u128, ConversionGraph>,
    pub account_index: BTreeIndex,
    pub transaction_index: BTreeIndex,
    pub entry_index: BTreeIndex,
    pub system_index: BTreeIndex,
    pub conversion_graph_index: BTreeIndex,
}

impl View for Ledger {
    type V = LedgerView;

    open spec fn view(&self) -> LedgerView {
        LedgerView {
            accounts_image: self.storage.image(RecordFamily::Accounts),
            transactions_image: self.storage.image(RecordFamily::Transactions),
            entries_image: self.storage.image(RecordFamily::Entries),
            systems_image: self.storage.image(RecordFamily::Systems),
            conversion_graphs_image: self.storage.image(RecordFamily::ConversionGraphs),
            accounts: value_views(self.accounts@),
            transactions: value_views(self.transactions@),
            entries: self.entries@,
            systems: value_views(self.systems@),
            conversion_graphs: value_views(self.conversion_graphs@),
            account_index: self.account_index@,
            transaction_index: self.transaction_index@,
            entry_index: self.entry_index@,
            system_index: self.system_index@,
            conversion_graph_index: self.conversion_graph_index@,
        }
    }
}

fn accounts_by_id(list: &Vec<Account>) -> (map: HashMap<u128, Account>)
    ensures
        value_views(map@) == keyed(views(list@), account_key()),
{
    let mut map: HashMap<u128, Account> = HashMap::new();
    let mut i: usize = 0;
    proof {
        assert(views(list@).take(0) =~= Seq::<AccountView>::empty());
        assert(value_views(map@) =~= Map::<u128, AccountView>::empty());
    }
    while i < list.len()
        invariant
            i <= list@.len(),
            value_views(map@) == keyed(views(list@).take(i as int), account_key()),
        decreases list@.len() - i,
    {
        let item = list[i].clone();
        let ghost before = map@;
        proof {
            assert(views(list@).take(i + 1).drop_last() =~= views(list@).take(i as int));
        }
        map.insert(item.id.value, item);
        proof {
            assert(value_views(map@) =~= value_views(before).insert(item.id.value, item@));
        }
        i = i + 1;
    }
    proof {
        assert(views(list@).take(i as int) =~= views(list@));
    }
    map
}

fn transactions_by_id(list: &Vec<Transaction>) -> (map: HashMap<u128, Transaction>)
    ensures
        value_views(map@) == keyed(views(list@), transaction_key()),
{
    let mut map: HashMap<u128, Transaction> = HashMap::new();
    let mut i: usize = 0;
    proof {
        assert(views(list@).take(0) =~= Seq::<TransactionView>::empty());
        assert(value_views(map@) =~= Map::<u128, TransactionView>::empty());
    }
    while i < list.len()
        invariant
            i <= list@.len(),
            value_views(map@) == keyed(views(list@).take(i as int), transaction_key()),
        decreases list@.len() - i,
    {
        let item = list[i].clone();
        let ghost before = map@;
        proof {
            assert(views(list@).take(i + 1).drop_last() =~= views(list@).take(i as int));
        }
        map.insert(item.id.value, item);
        proof {
            assert(value_views(map@) =~= value_views(before).insert(item.id.value, item@));
        }
        i = i + 1;
    }
    proof {
        assert(views(list@).take(i as int) =~= views(list@));
    }
    map
}

fn systems_by_code(list: &Vec<System>) -> (map: HashMap<u128, System>)
    ensures
        value_views(map@) == keyed(views(list@), system_key()),
{
    let mut map: HashMap<u128, System> = HashMap::new();
    let mut i: usize = 0;
    proof {
        assert(views(list@).take(0) =~= Seq::<SystemView>::empty());
        assert(value_views(map@) =~= Map::<u128, SystemView>::empty());
    }
    while i < list.len()
        invariant
            i <= list@.len(),
            value_views(map@) == keyed(views(list@).take(i as int), system_key()),
        decreases list@.len() - i,
    {
        let item = list[i].clone();
        let key = generate_deterministic_uuid(&item.id);
        let ghost before = map@;
        proof {
            assert(views(list@).take(i + 1).drop_last() =~= views(list@).take(i as int));
        }
        map.insert(key.value, item);
        proof {
            assert(value_views(map@) =~= value_views(before).insert(key.value, item@));
        }
        i = i + 1;
    }
    proof {
        assert(views(list@).take(i as int) =~= views(list@));
    }
    map
}

fn conversion_graphs_by_key(list: &Vec<ConversionGraph>) -> (map: HashMap<u128, ConversionGraph>)
    ensures
        value_views(map@) == keyed(views(list@), conversion_graph_key()),
{
    let mut map: HashMap<u128, ConversionGraph> = HashMap::new();
    let mut i: usize = 0;
    proof {
        assert(views(list@).take(0) =~= Seq::<ConversionGraphView>::empty());
        assert(value_views(map@) =~= Map::<u128, ConversionGraphView>::empty());
    }
    while i < list.len()
        invariant
            i <= list@.len(),
            value_views(map@) == keyed(views(list@).take(i as int), conversion_graph_key()),
        decreases list@.len() - i,
    {
        let item = list[i].clone();
        let key = generate_deterministic_uuid(&item.graph);
        let ghost before = map@;
        proof {
            assert(views(list@).take(i + 1).drop_last() =~= views(list@).take(i as int));
        }
        map.insert(key.value, item);
        proof {
            assert(value_views(map@) =~= value_views(before).insert(key.value, item@));
        }
        i = i + 1;
    }
    proof {
        assert(views(list@).take(i as int) =~= views(list@));
    }
    map
}

impl Ledger {
    /// Builds the ledger from the content of its files: each image is scanned
    /// from its start and the records in force fill the maps; the indexes are
    /// read from their flat forms. Records that cannot be read are stepped
    /// over and never fail the load.
    pub fn load(files: LedgerFiles) -> (ledger: Ledger)
        ensures
            ledger@ == loaded(files),
    {
        let account_index = BTreeIndex::load(files.account_index.as_slice());
        let transaction_index = BTreeIndex::load(files.transaction_index.as_slice());
        let entry_index = BTreeIndex::load(files.entry_index.as_slice());
        let system_index = BTreeIndex::load(files.system_index.as_slice());
        let conversion_graph_index = BTreeIndex::load(files.conversion_graph_index.as_slice());
        let storage = BinaryStorage::new(
            files.accounts,
            files.transactions,
            files.entries,
            files.systems,
            files.conversion_graphs,
        );
        let accounts_list = storage.read::<Account>();
        let transactions_list = storage.read::<Transaction>();
        let entries_list = storage.read::<Entry>();
        let systems_list = storage.read::<System>();
        let conversion_graphs_list = storage.read::<ConversionGraph>();
        let accounts = accounts_by_id(&accounts_list);
        let transactions = transactions_by_id(&transactions_list);
        let systems = systems_by_code(&systems_list);
        let conversion_graphs = conversion_graphs_by_key(&conversion_graphs_list);
        proof {
            assert(views(entries_list@) =~= entries_list@);
        }
        let ledger = Ledger {
            storage,
            accounts,
            transactions,
            entries: entries_list,
            systems,
            conversion_graphs,
            account_index,
            transaction_index,
            entry_index,
            system_index,
            conversion_graph_index,
        };
        proof {
            assert(ledger@ =~= loaded(files));
        }
        ledger
    }

    /// The flat forms of the five indexes as they stand, for writing to
    /// their files.
    pub fn persist_indexes(&self) -> (files: IndexFiles)
        ensures
            is_flat_form(self@.account_index, files.account_index@),
            is_flat_form(self@.transaction_index, files.transaction_index@),
            is_flat_form(self@.entry_index, files.entry_index@),
            is_flat_form(self@.system_index, files.system_index@),
            is_flat_form(self@.conversion_graph_index, files.conversion_graph_index@),
            entries_of_bytes(files.account_index@) == self@.account_index,
            entries_of_bytes(files.transaction_index@) == self@.transaction_index,
            entries_of_bytes(files.entry_index@) == self@.entry_index,
            entries_of_bytes(files.system_index@) == self@.system_index,
            entries_of_bytes(files.conversion_graph_index@) == self@.conversion_graph_index,
    {
        IndexFiles {
            account_index: self.account_index.persist(),
            transaction_index: self.transaction_index.persist(),
            entry_index: self.entry_index.persist(),
            system_index: self.system_index.persist(),
            conversion_graph_index: self.conversion_graph_index.persist(),
        }
    }

    /// Stores a system: appends it to the systems image, indexes it under the
    /// identifier derived from its code, and enters it in the map. A system
    /// that cannot be written changes nothing.
    pub fn create_system(&mut self, system: System) -> (r: Result<(), Error>)
        ensures
            match System::encoded(system@, system_fields()) {
                Err(e) => r == Err::<(), Error>(e) && final(self)@ == old(self)@,
                Ok(_) => r is Ok && final(self)@ == with_system(old(self)@, system@),
            },
    {
        let ghost before = self@;
        let ghost before_map = self.systems@;
        match self.storage.write(system) {
            Err(e) => {
                proof {
                    assert(self@ =~= before);
                }
                Err(e)
            },
            Ok((offset, system)) => {
                let uuid = generate_deterministic_uuid(&system.id);
                let ghost v = system@;
                self.systems.insert(uuid.value, system);
                self.system_index.insert(uuid, offset);
                proof {
                    assert(value_views(self.systems@) =~= value_views(before_map).insert(
                        uuid.value,
                        v,
                    ));
                    assert(self@ =~= with_system(before, v));
                }
                Ok(())
            },
        }
    }

    /// Stores an account: appends it to the accounts image, indexes it under
    /// its identifier, and enters it in the map. An account that cannot be
    /// written changes nothing.
    pub fn create_account(&mut self, account: Account) -> (r: Result<(), Error>)
        ensures
            match Account::encoded(account@, account_fields()) {
                Err(e) => r == Err::<(), Error>(e) && final(self)@ == old(self)@,
                Ok(_) => r is Ok && final(self)@ == with_account(old(self)@, account@),
            },
    {
        let ghost before = self@;
        let ghost before_map = self.accounts@;
        match self.storage.write(account) {
            Err(e) => {
                proof {
                    assert(self@ =~= before);
                }
                Err(e)
            },
            Ok((offset, account)) => {
                let id = account.id;
                let ghost v = account@;
                self.accounts.insert(id.value, account);
                self.account_index.insert(id, offset);
                proof {
                    assert(value_views(self.accounts@) =~= value_views(before_map).insert(
                        id.value,
                        v,
                    ));
                    assert(self@ =~= with_account(before, v));
                }
                Ok(())
            },
        }
    }

    /// Sorts the entries by the system of the account they post to. Fails
    /// with `NotFound` at the first entry whose account does not exist.
    pub fn group_entries_by_system(&self, entries: &Vec<Entry>) -> (r: Result<SystemGroups, Error>)
        ensures
            match accounts_verdict(self@.accounts, entries@) {
                Err(e) => r == Err::<SystemGroups, Error>(e),
                Ok(()) => r is Ok && uuid_values(r->Ok_0.systems@) == systems_touched(
                    self@.accounts,
                    entries@,
                ) && r->Ok_0.group_of@.len() == entries@.len() && forall|i: int|
                    0 <= i < entries@.len() ==> (#[trigger] r->Ok_0.group_of@[i])
                        < r->Ok_0.systems@.len() && r->Ok_0.systems@[r->Ok_0.group_of@[i] as int].value
                        == entry_system(self@.accounts, entries@[i]),
            },
    {
        let ghost accounts = self@.accounts;
        let mut systems: Vec<Uuid> = Vec::new();
        let mut group_of: Vec<usize> = Vec::new();
        let mut i: usize = 0;
        proof {
            assert(entries@.skip(0) =~= entries@);
            assert(entries@.take(0) =~= Seq::<Entry>::empty());
            assert(uuid_values(systems@) =~= Seq::<u128>::empty());
        }
        while i < entries.len()
            invariant
                i <= entries@.len(),
                accounts == self@.accounts,
                accounts_verdict(accounts, entries@) == accounts_verdict(
                    accounts,
                    entries@.skip(i as int),
                ),
                uuid_values(systems@) == systems_touched(accounts, entries@.take(i as int)),
                group_of@.len() == i,
                forall|k: int|
                    0 <= k < i ==> (#[trigger] group_of@[k]) < systems@.len()
                        && systems@[group_of@[k] as int].value == entry_system(
                        accounts,
                        entries@[k],
                    ),
            decreases entries@.len() - i,
        {
            let entry = entries[i];
            proof {
                assert(entries@.skip(i as int).drop_first() =~= entries@.skip(i + 1));
                assert(entries@.take(i + 1).drop_last() =~= entries@.take(i as int));
            }
            let system = match self.accounts.get(&entry.account_id.value) {
                None => {
                    return Err(Error::NotFound(Missing::Account(entry.account_id)));
                },
                Some(account) => generate_deterministic_uuid(&account.system_id),
            };
            proof {
                assert(system.value == entry_system(accounts, entry));
            }
            let count: usize = systems.len();
            let mut found: usize = count;
            let mut j: usize = 0;
            while j < count
                invariant_except_break
                    found == count,
                    forall|k: int| 0 <= k < j ==> systems@[k].value != system.value,
                invariant
                    j <= count == systems@.len(),
                ensures
                    found <= count,
                    found < count ==> systems@[found as int].value == system.value,
                    found == count ==> forall|k: int|
                        0 <= k < count ==> systems@[k].value != system.value,
                decreases count - j,
            {
                if systems[j].value == system.value {
                    found = j;
                    break ;
                }
                j = j + 1;
            }
            let ghost before = uuid_values(systems@);
            if found == count {
                proof {
                    assert(!before.contains(system.value)) by {
                        if before.contains(system.value) {
                            let k = choose|k: int| 0 <= k < before.len() && before[k] == system.value;
                            assert(systems@[k].value == system.value);
                        }
                    }
                    assert(uuid_values(systems@.push(system)) =~= before.push(system.value));
                }
                systems.push(system);
            } else {
                proof {
                    assert(before[found as int] == system.value);
                    assert(before.contains(system.value));
                }
            }
            group_of.push(found);
            i = i + 1;
        }
        proof {
            assert(entries@.take(i as int) =~= entries@);
        }
        Ok(SystemGroups { systems, group_of })
    }

    /// Records a transaction with its entries.
    ///
    /// `total` is the sum of the amounts of all entries, and `system_sums`
    /// holds, for each system that the entries touch, in the order in which
    /// they first touch it, the sum of the amounts posted to that system.
    /// Nothing is written unless the total and every system balance, every
    /// account and system exists, and the transaction can be written; then
    /// each entry is appended and indexed, and after them the transaction.
    pub fn record_transaction(
        &mut self,
        tx: Transaction,
        entries: Vec<Entry>,
        total: Double,
        system_sums: Vec<Double>,
    ) -> (r: Result<(), Error>)
        ensures
            r == transaction_verdict(old(self)@, tx@, entries@, total, system_sums@),
            r is Ok ==> final(self)@ == with_transaction(with_entries(old(self)@, entries@), tx@),
            r is Err ==> final(self)@ == old(self)@,
    {
        let ghost before = self@;
        if total.exceeds_epsilon() {
            return Err(Error::InvalidData(Invalid::UnbalancedTransaction));
        }
        let groups = match self.group_entries_by_system(&entries) {
            Err(e) => {
                return Err(e);
            },
            Ok(groups) => groups,
        };
        let ghost touched = systems_touched(before.accounts, entries@);
        if system_sums.len() != groups.systems.len() {
            return Err(Error::InvalidData(Invalid::SumsMismatch));
        }
        let mut j: usize = 0;
        proof {
            assert(touched.skip(0) =~= touched);
            assert(system_sums@.skip(0) =~= system_sums@);
        }
        while j < groups.systems.len()
            invariant
                j <= groups.systems@.len() == system_sums@.len(),
                self@ == before,
                before == old(self)@,
                !total.spec_exceeds_epsilon(),
                accounts_verdict(before.accounts, entries@) is Ok,
                touched == systems_touched(before.accounts, entries@),
                touched == uuid_values(groups.systems@),
                groups_verdict(before.systems, touched, system_sums@) == groups_verdict(
                    before.systems,
                    touched.skip(j as int),
                    system_sums@.skip(j as int),
                ),
            decreases groups.systems@.len() - j,
        {
            let system = groups.systems[j];
            proof {
                assert(touched.skip(j as int).drop_first() =~= touched.skip(j + 1));
                assert(system_sums@.skip(j as int).drop_first() =~= system_sums@.skip(j + 1));
                assert(touched[j as int] == system.value);
            }
            if !self.systems.contains_key(&system.value) {
                return Err(Error::NotFound(Missing::System(system)));
            }
            if system_sums[j].exceeds_epsilon() {
                return Err(Error::InvalidData(Invalid::UnbalancedSystem(system)));
            }
            j = j + 1;
        }
        proof {
            assert(touched.skip(j as int) =~= Seq::<u128>::empty());
        }
        let mut scratch: Vec<u8> = Vec::new();
        match tx.to_binary(&mut scratch, &transaction_layout()) {
            Err(e) => {
                return Err(e);
            },
            Ok(()) => {},
        }
        proof {
            assert(transaction_verdict(before, tx@, entries@, total, system_sums@) is Ok);
        }
        let mut i: usize = 0;
        proof {
            assert(entries@.take(0) =~= Seq::<Entry>::empty());
        }
        while i < entries.len()
            invariant
                i <= entries@.len(),
                before == old(self)@,
                transaction_verdict(before, tx@, entries@, total, system_sums@) is Ok,
                self@ == with_entries(before, entries@.take(i as int)),
            decreases entries@.len() - i,
        {
            let ghost state = self@;
            let entry = entries[i];
            proof {
                assert(entries@.take(i + 1).drop_last() =~= entries@.take(i as int));
                lemma_entry_roundtrip(entry, Seq::empty());
            }
            match self.storage.write(entry) {
                Err(e) => {
                    return Err(e);
                },
                Ok((offset, entry)) => {
                    let key = generate_deterministic_uuid(&entry.id);
                    self.entry_index.insert(key, offset);
                    self.entries.push(entry);
                },
            }
            proof {
                assert(self@ =~= (LedgerView {
                    entries_image: state.entries_image + seq![LIVE] + entry_bytes(entry),
                    entry_index: state.entry_index.insert(
                        rederived_uuid(entry.id).value,
                        state.entries_image.len() as u64,
                    ),
                    entries: state.entries.push(entry),
                    ..state
                }));
            }
            i = i + 1;
        }
        proof {
            assert(entries@.take(i as int) =~= entries@);
        }
        let ghost state = self@;
        let ghost before_map = self.transactions@;
        let ghost v = tx@;
        proof {
        }
        match self.storage.write(tx) {
            Err(e) => {
                return Err(e);
            },
            Ok((offset, tx)) => {
                let id = tx.id;
                let key = generate_deterministic_uuid(&id);
                self.transaction_index.insert(key, offset);
                self.transactions.insert(id.value, tx);
            },
        }
        proof {
            assert(value_views(self.transactions@) =~= value_views(before_map).insert(
                v.id.value,
                v,
            ));
            assert(self@ =~= with_transaction(state, v));
        }
        Ok(())
    }

    /// Appends a conversion graph, indexes it and enters it in the map under
    /// the identifier derived from its key. The graph must be one that can be
    /// written.
    fn store_graph(&mut self, graph: ConversionGraph)
        requires
            ConversionGraph::encoded(graph@, conversion_graph_fields()) is Ok,
        ensures
            final(self)@ == with_graph(old(self)@, graph@),
    {
        let ghost before = self@;
        let ghost before_map = self.conversion_graphs@;
        let ghost v = graph@;
        match self.storage.write(graph) {
            Err(_) => {},
            Ok((offset, graph)) => {
                let uuid = generate_deterministic_uuid(&graph.graph);
                self.conversion_graph_index.insert(uuid, offset);
                self.conversion_graphs.insert(uuid.value, graph);
            },
        }
        proof {
            assert(value_views(self.conversion_graphs@) =~= value_views(before_map).insert(
                derived_uuid(v.graph).value,
                v,
            ));
            assert(self@ =~= with_graph(before, v));
        }
    }

    /// Archives an existing graph at the instant `now`: tombstones its live
    /// record and appends its historical record. A failure changes nothing.
    fn archive_conversion_graph(&mut self, graph: &ConversionGraph, expired_at: i64) -> (r: Result<
        (),
        Error,
    >)
        ensures
            match archived(old(self)@, graph@, expired_at) {
                Err(e) => r == Err::<(), Error>(e) && final(self)@ == old(self)@,
                Ok(after) => r is Ok && final(self)@ == after,
            },
    {
        let ghost before = self@;
        let since = match format_rfc3339(graph.rate_since) {
            Some(text) => text,
            None => {
                return Err(Error::InvalidData(Invalid::UnrepresentableTime));
            },
        };
        let until = match format_rfc3339(expired_at) {
            Some(text) => text,
            None => {
                return Err(Error::InvalidData(Invalid::UnrepresentableTime));
            },
        };
        let mut key = since;
        key.append("[");
        key.append(graph.graph.as_str());
        key.append("]");
        key.append(until.as_str());
        let historical = ConversionGraph {
            graph: key,
            rate: graph.rate,
            rate_since: graph.rate_since,
        };
        proof {
            assert(historical@ == historical_record(graph@, expired_at)->Ok_0);
        }
        let mut scratch: Vec<u8> = Vec::new();
        match historical.to_binary(&mut scratch, &conversion_graph_layout()) {
            Err(e) => {
                return Err(e);
            },
            Ok(()) => {},
        }
        let old_uuid = generate_deterministic_uuid(&graph.graph);
        match self.conversion_graph_index.get(&old_uuid) {
            None => {},
            Some(offset) => {
                match self.storage.read_single::<ConversionGraph>(offset) {
                    Ok(found) => {
                        if !found.same_record(graph) {
                            return Err(Error::WrongRecord);
                        }
                        match self.storage.tombstone(graph.clone(), offset) {
                            Ok(()) => {},
                            Err(e) => {
                                return Err(e);
                            },
                        }
                    },
                    Err(Error::DeadRecord) => {},
                    Err(Error::HistoricalRecord) => {},
                    Err(e) => {
                        return Err(e);
                    },
                }
            },
        }
        proof {
            assert(self@ =~= (LedgerView {
                conversion_graphs_image: image_without(before, graph@)->Ok_0,
                ..before
            }));
        }
        self.store_graph(historical);
        Ok(())
    }

    /// Sets one direction at the instant `now`: archives the graph in force
    /// for it, if there is one, and stores the new graph. A failure changes
    /// nothing.
    fn set_direction(&mut self, from: &str, to: &str, rate: Double, now: i64) -> (r: Result<
        (),
        Error,
    >)
        ensures
            match with_direction(old(self)@, from@, to@, rate, now) {
                Err(e) => r == Err::<(), Error>(e) && final(self)@ == old(self)@,
                Ok(after) => r == Ok::<(), Error>(()) && final(self)@ == after,
            },
    {
        let mut key = String::from_str(from);
        key.append(" -> ");
        key.append(to);
        let graph = ConversionGraph { graph: key, rate, rate_since: now };
        proof {
            reveal(with_direction);
            assert(graph@ == direction_record(from@, to@, rate, now));
        }
        let mut scratch: Vec<u8> = Vec::new();
        match graph.to_binary(&mut scratch, &conversion_graph_layout()) {
            Err(e) => {
                return Err(e);
            },
            Ok(()) => {},
        }
        let uuid = generate_deterministic_uuid(&graph.graph);
        let existing: Option<ConversionGraph> = match self.conversion_graphs.get(&uuid.value) {
            Some(found) => Some(found.clone()),
            None => None,
        };
        match existing {
            Some(existing) => {
                match self.archive_conversion_graph(&existing, now) {
                    Err(e) => {
                        return Err(e);
                    },
                    Ok(()) => {},
                }
            },
            None => {},
        }
        self.store_graph(graph);
        Ok(())
    }

    /// Sets the directions that a direction token names.
    fn set_directions(
        &mut self,
        from: &str,
        direction: &str,
        to: &str,
        rate: Double,
        inverse_rate: Double,
        now: i64,
    ) -> (r: Result<(), Error>)
        ensures
            r == directions_outcome(old(self)@, from@, direction@, to@, rate, inverse_rate, now).0,
            final(self)@ == directions_outcome(
                old(self)@,
                from@,
                direction@,
                to@,
                rate,
                inverse_rate,
                now,
            ).1,
    {
        if str_eq(direction, "->") {
            self.set_direction(from, to, rate, now)
        } else if str_eq(direction, "<-") {
            self.set_direction(to, from, rate, now)
        } else if str_eq(direction, "<->") {
            match self.set_direction(from, to, rate, now) {
                Err(e) => Err(e),
                Ok(()) => self.set_direction(to, from, inverse_rate, now),
            }
        } else {
            Err(Error::InvalidData(Invalid::UnknownDirection))
        }
    }

    /// Creates the conversion that a graph expression asks for, as of the
    /// instant `now`. `graph.graph` is the expression and `graph.rate` the
    /// rate; `inverse_rate` is the rate of the opposite direction, which only
    /// `<->` uses.
    pub fn create_conversion_graph_at(
        &mut self,
        graph: ConversionGraph,
        inverse_rate: Double,
        now: i64,
    ) -> (r: Result<(), Error>)
        ensures
            r == conversion_outcome(
                old(self)@,
                whitespace_tokens(graph.graph@),
                graph.rate,
                inverse_rate,
                now,
            ).0,
            final(self)@ == conversion_outcome(
                old(self)@,
                whitespace_tokens(graph.graph@),
                graph.rate,
                inverse_rate,
                now,
            ).1,
    {
        let tokens = split_whitespace(graph.graph.as_str());
        if tokens.len() != 3 {
            return Err(Error::InvalidData(Invalid::BadGraphSyntax));
        }
        let from = tokens[0].as_str();
        let direction = tokens[1].as_str();
        let to = tokens[2].as_str();
        proof {
            assert(views_of(tokens@)[0] == from@);
            assert(views_of(tokens@)[1] == direction@);
            assert(views_of(tokens@)[2] == to@);
        }
        let from_uuid = generate_deterministic_uuid(from);
        let to_uuid = generate_deterministic_uuid(to);
        if !self.systems.contains_key(&from_uuid.value) {
            return Err(Error::NotFound(Missing::SourceSystem));
        }
        if !self.systems.contains_key(&to_uuid.value) {
            return Err(Error::NotFound(Missing::TargetSystem));
        }
        self.set_directions(from, direction, to, graph.rate, inverse_rate, now)
    }

    /// Creates the conversion that a graph expression asks for, as of the
    /// present instant: reads the clock and does as
    /// [`Ledger::create_conversion_graph_at`] does.
    pub fn create_conversion_graph(&mut self, graph: ConversionGraph, inverse_rate: Double) -> (r:
        Result<(), Error>)
        ensures
            exists|now: i64|
                {
                    let outcome = #[trigger] conversion_outcome(
                        old(self)@,
                        whitespace_tokens(graph.graph@),
                        graph.rate,
                        inverse_rate,
                        now,
                    );
                    r == outcome.0 && final(self)@ == outcome.1
                },
    {
        let now = current_seconds();
        self.create_conversion_graph_at(graph, inverse_rate, now)
    }
}

} // verus!
