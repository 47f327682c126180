//! What holds of the ledger's operations, proved from their specifications.

use vstd::prelude::*;
use crate::db::{
    account_key, accounts_verdict, archived, bracketed_key, conversion_graph_key,
    conversion_outcome, direction_key, direction_record, entry_index_key, entry_system,
    groups_verdict, historical_record, image_without, loaded, system_key, systems_touched,
    transaction_index_key, transaction_verdict, with_account, with_direction, with_entries,
    with_graph, with_system, with_transaction, LedgerFiles, LedgerView,
};
use crate::error::Error;
use crate::index::btree::{is_flat_form, lemma_flat_form_reads_back};
use crate::model::{
    Account, AccountView, ConversionGraph, ConversionGraphView, Double, Entry, System,
    SystemView, Transaction, TransactionView,
};
use crate::platform::rfc3339_text;
use crate::storage::binary::{graph_key_class, FromBinary, GraphKeyClass, ToBinary, LIVE, TOMBSTONE};
use crate::storage::conversion_graphs::{
    lemma_historical_graph_is_refused, lemma_written_graph_has_a_class,
};
use crate::storage::entries::lemma_entry_roundtrip;
use crate::storage::layout::{
    account_fields, conversion_graph_fields, system_fields, transaction_fields,
};
use crate::storage::log::{
    entry_leads_to_record, family_is_consistent, lemma_append_keeps_consistency,
    lemma_append_then_read,
    lemma_empty_is_consistent, lemma_index_leads_to_records, lemma_tombstone_keeps_consistency,
    reads_as_historical, record_bytes,
};
use crate::storage::store::{read_at, Record};
use crate::util::uuid::derived_uuid;

verus! {

/// The accounts are all there exactly when each entry's account is.
pub proof fn lemma_accounts_verdict(accounts: Map<u128, AccountView>, entries: Seq<Entry>)
    ensures
        accounts_verdict(accounts, entries) is Ok <==> forall|i: int|
            0 <= i < entries.len() ==> accounts.contains_key((#[trigger] entries[i]).account_id.value),
    decreases entries.len(),
{
    if entries.len() > 0 {
        let rest = entries.drop_first();
        lemma_accounts_verdict(accounts, rest);
        if accounts_verdict(accounts, entries) is Ok {
            assert forall|i: int| 0 <= i < entries.len() implies accounts.contains_key(
                (#[trigger] entries[i]).account_id.value,
            ) by {
                if i > 0 {
                    assert(rest[i - 1] == entries[i]);
                }
            }
        }
        if forall|i: int|
            0 <= i < entries.len() ==> accounts.contains_key(
                (#[trigger] entries[i]).account_id.value,
            ) {
            assert(accounts.contains_key(entries[0].account_id.value));
            assert forall|i: int| 0 <= i < rest.len() implies accounts.contains_key(
                (#[trigger] rest[i]).account_id.value,
            ) by {
                assert(rest[i] == entries[i + 1]);
            }
        }
    }
}

/// The systems all pass exactly when each exists and has a sum within
/// epsilon.
pub proof fn lemma_groups_verdict(
    systems: Map<u128, SystemView>,
    touched: Seq<u128>,
    sums: Seq<Double>,
)
    requires
        sums.len() == touched.len(),
    ensures
        groups_verdict(systems, touched, sums) is Ok <==> forall|j: int|
            0 <= j < touched.len() ==> systems.contains_key(#[trigger] touched[j])
                && !sums[j].spec_exceeds_epsilon(),
    decreases touched.len(),
{
    if touched.len() > 0 {
        let rest = touched.drop_first();
        let rest_sums = sums.drop_first();
        lemma_groups_verdict(systems, rest, rest_sums);
        if groups_verdict(systems, touched, sums) is Ok {
            assert forall|j: int| 0 <= j < touched.len() implies systems.contains_key(
                #[trigger] touched[j],
            ) && !sums[j].spec_exceeds_epsilon() by {
                if j > 0 {
                    assert(rest[j - 1] == touched[j]);
                    assert(rest_sums[j - 1] == sums[j]);
                }
            }
        }
        if forall|j: int|
            0 <= j < touched.len() ==> systems.contains_key(#[trigger] touched[j])
                && !sums[j].spec_exceeds_epsilon() {
            assert(systems.contains_key(touched[0]) && !sums[0].spec_exceeds_epsilon());
            assert forall|j: int| 0 <= j < rest.len() implies systems.contains_key(
                #[trigger] rest[j],
            ) && !rest_sums[j].spec_exceeds_epsilon() by {
                assert(rest[j] == touched[j + 1]);
                assert(rest_sums[j] == sums[j + 1]);
            }
        }
    }
}

/// The systems touched are the systems of the entries, each listed once.
pub proof fn lemma_systems_touched(accounts: Map<u128, AccountView>, entries: Seq<Entry>)
    ensures
        systems_touched(accounts, entries).no_duplicates(),
        forall|i: int|
            0 <= i < entries.len() ==> systems_touched(accounts, entries).contains(
                entry_system(accounts, #[trigger] entries[i]),
            ),
        forall|j: int|
            0 <= j < systems_touched(accounts, entries).len() ==> exists|i: int|
                0 <= i < entries.len() && entry_system(accounts, #[trigger] entries[i])
                    == (#[trigger] systems_touched(accounts, entries)[j]),
    decreases entries.len(),
{
    if entries.len() > 0 {
        let head = entries.drop_last();
        let before = systems_touched(accounts, head);
        let touched = systems_touched(accounts, entries);
        let system = entry_system(accounts, entries.last());
        lemma_systems_touched(accounts, head);
        assert forall|i: int| 0 <= i < entries.len() implies touched.contains(
            entry_system(accounts, #[trigger] entries[i]),
        ) by {
            if i < head.len() {
                assert(head[i] == entries[i]);
                let k = choose|k: int|
                    0 <= k < before.len() && before[k] == entry_system(accounts, head[i]);
                assert(touched[k] == before[k]);
            } else {
                if before.contains(system) {
                } else {
                    assert(touched[before.len() as int] == system);
                }
            }
        }
        assert forall|j: int| 0 <= j < touched.len() implies exists|i: int|
            0 <= i < entries.len() && entry_system(accounts, #[trigger] entries[i])
                == (#[trigger] touched[j]) by {
            if j < before.len() {
                let i = choose|i: int|
                    0 <= i < head.len() && entry_system(accounts, #[trigger] head[i]) == before[j];
                assert(entries[i] == head[i]);
                assert(touched[j] == before[j]);
            } else {
                assert(touched[j] == system);
                assert(entries[entries.len() - 1] == entries.last());
            }
        }
    }
}

/// A transaction that can be written, with one sum for each system touched,
/// is recorded exactly when the total is within epsilon, every entry's
/// account exists, and every system touched exists and has a sum within
/// epsilon.
pub proof fn lemma_transaction_is_recorded_iff(
    state: LedgerView,
    tx: TransactionView,
    entries: Seq<Entry>,
    total: Double,
    sums: Seq<Double>,
)
    requires
        Transaction::encoded(tx, transaction_fields()) is Ok,
        sums.len() == systems_touched(state.accounts, entries).len(),
    ensures
        transaction_verdict(state, tx, entries, total, sums) is Ok <==> {
            &&& !total.spec_exceeds_epsilon()
            &&& forall|i: int|
                0 <= i < entries.len() ==> state.accounts.contains_key(
                    (#[trigger] entries[i]).account_id.value,
                )
            &&& forall|j: int|
                0 <= j < systems_touched(state.accounts, entries).len() ==> state.systems.contains_key(
                    #[trigger] systems_touched(state.accounts, entries)[j],
                ) && !sums[j].spec_exceeds_epsilon()
        },
{
    let touched = systems_touched(state.accounts, entries);
    lemma_accounts_verdict(state.accounts, entries);
    lemma_groups_verdict(state.systems, touched, sums);
    let accounts_exist = forall|i: int|
        0 <= i < entries.len() ==> state.accounts.contains_key(
            (#[trigger] entries[i]).account_id.value,
        );
    let systems_pass = forall|j: int|
        0 <= j < touched.len() ==> state.systems.contains_key(#[trigger] touched[j])
            && !sums[j].spec_exceeds_epsilon();
    assert(accounts_verdict(state.accounts, entries) is Ok <==> accounts_exist);
    assert(groups_verdict(state.systems, touched, sums) is Ok <==> systems_pass);
    if transaction_verdict(state, tx, entries, total, sums) is Ok {
        assert(accounts_exist && systems_pass);
    }
    if !total.spec_exceeds_epsilon() && accounts_exist && systems_pass {
        assert(transaction_verdict(state, tx, entries, total, sums) is Ok);
    }
}

/// Setting a direction that has no graph yet appends one live record for it
/// and changes nothing else of the conversion graphs.
pub proof fn lemma_new_direction(
    state: LedgerView,
    from: Seq<char>,
    to: Seq<char>,
    rate: Double,
    now: i64,
)
    requires
        with_direction(state, from, to, rate, now) is Ok,
        !state.conversion_graphs.contains_key(derived_uuid(direction_key(from, to)).value),
    ensures
        with_direction(state, from, to, rate, now)->Ok_0 == with_graph(
            state,
            direction_record(from, to, rate, now),
        ),
{
    reveal(with_direction);
}

/// The graph that was stored for a direction is found again: it is in the
/// map under the identifier derived from its key, and where its key is an
/// active one, the index leads to it.
pub proof fn lemma_direction_is_found_again(
    state: LedgerView,
    from: Seq<char>,
    to: Seq<char>,
    rate: Double,
    now: i64,
)
    requires
        with_direction(state, from, to, rate, now) is Ok,
        with_direction(state, from, to, rate, now)->Ok_0.conversion_graphs_image.len()
            <= u64::MAX,
    ensures
        ({
            let after = with_direction(state, from, to, rate, now)->Ok_0;
            let graph = direction_record(from, to, rate, now);
            let id = derived_uuid(graph.graph).value;
            &&& after.conversion_graphs.contains_key(id)
            &&& after.conversion_graphs[id] == graph
            &&& after.conversion_graph_index.contains_key(id)
            &&& graph_key_class(graph.graph) == GraphKeyClass::Active ==> read_at::<ConversionGraph>(
                after.conversion_graphs_image,
                after.conversion_graph_index[id] as int,
                conversion_graph_fields(),
            ) == Ok::<ConversionGraphView, Error>(graph)
        }),
{
    reveal(with_direction);
    let graph = direction_record(from, to, rate, now);
    let id = derived_uuid(graph.graph).value;
    let cleared = if state.conversion_graphs.contains_key(id) {
        archived(state, state.conversion_graphs[id], now)->Ok_0
    } else {
        state
    };
    if state.conversion_graphs.contains_key(id) {
        let image = image_without(state, state.conversion_graphs[id])->Ok_0;
        assert(image.len() == state.conversion_graphs_image.len());
    }
    if graph_key_class(graph.graph) == GraphKeyClass::Active {
        lemma_append_then_read::<ConversionGraph>(cleared.conversion_graphs_image, graph);
    }
}

/// Updating a direction whose graph in force is found through the index
/// zeroes the liveness byte of that graph, appends one historical record
/// whose key brackets the graph's key between the instant it held from and
/// the present one, and appends one live record for the direction.
pub proof fn lemma_update_archives(
    state: LedgerView,
    from: Seq<char>,
    to: Seq<char>,
    rate: Double,
    now: i64,
)
    requires
        with_direction(state, from, to, rate, now) is Ok,
        state.conversion_graphs.contains_key(derived_uuid(direction_key(from, to)).value),
        state.conversion_graph_index.contains_key(
            derived_uuid(
                state.conversion_graphs[derived_uuid(direction_key(from, to)).value].graph,
            ).value,
        ),
        read_at::<ConversionGraph>(
            state.conversion_graphs_image,
            state.conversion_graph_index[derived_uuid(
                state.conversion_graphs[derived_uuid(direction_key(from, to)).value].graph,
            ).value] as int,
            conversion_graph_fields(),
        ) is Ok,
    ensures
        ({
            let after = with_direction(state, from, to, rate, now)->Ok_0;
            let existing = state.conversion_graphs[derived_uuid(direction_key(from, to)).value];
            let offset = state.conversion_graph_index[derived_uuid(existing.graph).value] as int;
            let historical = historical_record(existing, now)->Ok_0;
            let graph = direction_record(from, to, rate, now);
            &&& 0 <= offset < state.conversion_graphs_image.len()
            &&& historical.graph == bracketed_key(
                rfc3339_text(existing.rate_since)->0,
                existing.graph,
                rfc3339_text(now)->0,
            )
            &&& historical.rate == existing.rate
            &&& historical.rate_since == existing.rate_since
            &&& after.conversion_graphs_image == state.conversion_graphs_image.update(
                offset,
                TOMBSTONE,
            ) + seq![LIVE] + ConversionGraph::encoded(historical, conversion_graph_fields())->Ok_0
                + seq![LIVE] + ConversionGraph::encoded(graph, conversion_graph_fields())->Ok_0
            &&& after.conversion_graphs_image[offset] == TOMBSTONE
            &&& after.conversion_graphs[derived_uuid(graph.graph).value] == graph
        }),
{
    reveal(with_direction);
    let existing = state.conversion_graphs[derived_uuid(direction_key(from, to)).value];
    let offset = state.conversion_graph_index[derived_uuid(existing.graph).value] as int;
    assert(0 <= offset < state.conversion_graphs_image.len()) by {
        if offset == state.conversion_graphs_image.len() {
            assert(state.conversion_graphs_image.skip(offset).len() == 0);
        }
    }
}

/// After a conversion is created with `<->` between two systems, where
/// neither direction has a graph yet and the two directions have different
/// identifiers, exactly two records are added to the conversion graphs, both
/// live: the first direction at the rate given and the second at the inverse
/// rate, both in force since the same instant, both in the map and both
/// indexed.
pub proof fn lemma_both_directions(
    state: LedgerView,
    from: Seq<char>,
    to: Seq<char>,
    rate: Double,
    inverse_rate: Double,
    now: i64,
)
    requires
        conversion_outcome(state, seq![from, "<->"@, to], rate, inverse_rate, now).0 is Ok,
        derived_uuid(direction_key(from, to)) != derived_uuid(direction_key(to, from)),
        !state.conversion_graphs.contains_key(derived_uuid(direction_key(from, to)).value),
        !state.conversion_graphs.contains_key(derived_uuid(direction_key(to, from)).value),
    ensures
        ({
            let after = conversion_outcome(
                state,
                seq![from, "<->"@, to],
                rate,
                inverse_rate,
                now,
            ).1;
            let forward = direction_record(from, to, rate, now);
            let reverse = direction_record(to, from, inverse_rate, now);
            &&& after == with_graph(with_graph(state, forward), reverse)
            &&& after.conversion_graphs.dom() == state.conversion_graphs.dom().insert(
                derived_uuid(forward.graph).value,
            ).insert(derived_uuid(reverse.graph).value)
            &&& after.conversion_graphs[derived_uuid(forward.graph).value] == forward
            &&& after.conversion_graphs[derived_uuid(reverse.graph).value] == reverse
            &&& forward.graph == direction_key(from, to) && reverse.graph == direction_key(to, from)
            &&& forward.rate == rate && reverse.rate == inverse_rate
            &&& forward.rate_since == reverse.rate_since
            &&& after.conversion_graph_index.contains_key(derived_uuid(forward.graph).value)
            &&& after.conversion_graph_index.contains_key(derived_uuid(reverse.graph).value)
            &&& after.conversion_graphs_image == state.conversion_graphs_image + seq![LIVE]
                + ConversionGraph::encoded(forward, conversion_graph_fields())->Ok_0 + seq![LIVE]
                + ConversionGraph::encoded(reverse, conversion_graph_fields())->Ok_0
        }),
{
    reveal(with_direction);
    reveal_strlit("->");
    reveal_strlit("<-");
    reveal_strlit("<->");
    assert("->"@.len() == 2);
    assert("<-"@.len() == 2);
    assert("<->"@.len() == 3);
    let tokens = seq![from, "<->"@, to];
    assert(tokens[0] == from && tokens[1] == "<->"@ && tokens[2] == to);
    let forward = direction_record(from, to, rate, now);
    let reverse = direction_record(to, from, inverse_rate, now);
    let first = with_graph(state, forward);
    let after = with_graph(first, reverse);
    assert(!first.conversion_graphs.contains_key(derived_uuid(reverse.graph).value));
    assert(after.conversion_graphs.dom() =~= state.conversion_graphs.dom().insert(
        derived_uuid(forward.graph).value,
    ).insert(derived_uuid(reverse.graph).value));
}

/// Whether every index of the ledger points at records of its family only:
/// each image is a sequence of whole records, and each index entry is the
/// offset of a record whose key is the entry's identifier.
pub open spec fn ledger_is_consistent(state: LedgerView) -> bool {
    &&& family_is_consistent::<Account>(state.accounts_image, state.account_index, account_key())
    &&& family_is_consistent::<Transaction>(
        state.transactions_image,
        state.transaction_index,
        transaction_index_key(),
    )
    &&& family_is_consistent::<Entry>(state.entries_image, state.entry_index, entry_index_key())
    &&& family_is_consistent::<System>(state.systems_image, state.system_index, system_key())
    &&& family_is_consistent::<ConversionGraph>(
        state.conversion_graphs_image,
        state.conversion_graph_index,
        conversion_graph_key(),
    )
}

/// Whether every image is short enough for its length to be an offset.
pub open spec fn images_fit(state: LedgerView) -> bool {
    &&& state.accounts_image.len() <= u64::MAX
    &&& state.transactions_image.len() <= u64::MAX
    &&& state.entries_image.len() <= u64::MAX
    &&& state.systems_image.len() <= u64::MAX
    &&& state.conversion_graphs_image.len() <= u64::MAX
}

/// In a consistent ledger every entry of every index leads to its record:
/// reading at the offset gives a record whose key is the entry's identifier,
/// or reports a dead or historical record.
pub proof fn lemma_indexes_lead_to_records(state: LedgerView)
    requires
        ledger_is_consistent(state),
    ensures
        forall|id: u128| #[trigger]
            state.account_index.contains_key(id) ==> entry_leads_to_record::<Account>(
                state.accounts_image,
                state.account_index,
                account_key(),
                id,
            ),
        forall|id: u128| #[trigger]
            state.transaction_index.contains_key(id) ==> entry_leads_to_record::<Transaction>(
                state.transactions_image,
                state.transaction_index,
                transaction_index_key(),
                id,
            ),
        forall|id: u128| #[trigger]
            state.entry_index.contains_key(id) ==> entry_leads_to_record::<Entry>(
                state.entries_image,
                state.entry_index,
                entry_index_key(),
                id,
            ),
        forall|id: u128| #[trigger]
            state.system_index.contains_key(id) ==> entry_leads_to_record::<System>(
                state.systems_image,
                state.system_index,
                system_key(),
                id,
            ),
        forall|id: u128| #[trigger]
            state.conversion_graph_index.contains_key(id) ==> entry_leads_to_record::<
                ConversionGraph,
            >(
                state.conversion_graphs_image,
                state.conversion_graph_index,
                conversion_graph_key(),
                id,
            ),
{
    lemma_index_leads_to_records::<Account>(
        state.accounts_image,
        state.account_index,
        account_key(),
    );
    lemma_index_leads_to_records::<Transaction>(
        state.transactions_image,
        state.transaction_index,
        transaction_index_key(),
    );
    lemma_index_leads_to_records::<Entry>(state.entries_image, state.entry_index, entry_index_key());
    lemma_index_leads_to_records::<System>(state.systems_image, state.system_index, system_key());
    lemma_index_leads_to_records::<ConversionGraph>(
        state.conversion_graphs_image,
        state.conversion_graph_index,
        conversion_graph_key(),
    );
}

/// The ledger loaded from empty files is consistent.
pub proof fn lemma_empty_ledger_is_consistent(files: LedgerFiles)
    requires
        files.accounts@.len() == 0,
        files.transactions@.len() == 0,
        files.entries@.len() == 0,
        files.systems@.len() == 0,
        files.conversion_graphs@.len() == 0,
        files.account_index@.len() == 0,
        files.transaction_index@.len() == 0,
        files.entry_index@.len() == 0,
        files.system_index@.len() == 0,
        files.conversion_graph_index@.len() == 0,
    ensures
        ledger_is_consistent(loaded(files)),
        images_fit(loaded(files)),
{
    let state = loaded(files);
    lemma_empty_is_consistent::<Account>(account_key());
    lemma_empty_is_consistent::<Transaction>(transaction_index_key());
    lemma_empty_is_consistent::<Entry>(entry_index_key());
    lemma_empty_is_consistent::<System>(system_key());
    lemma_empty_is_consistent::<ConversionGraph>(conversion_graph_key());
    assert(state.accounts_image =~= Seq::<u8>::empty());
    assert(state.transactions_image =~= Seq::<u8>::empty());
    assert(state.entries_image =~= Seq::<u8>::empty());
    assert(state.systems_image =~= Seq::<u8>::empty());
    assert(state.conversion_graphs_image =~= Seq::<u8>::empty());
    assert(state.account_index =~= Map::<u128, u64>::empty());
    assert(state.transaction_index =~= Map::<u128, u64>::empty());
    assert(state.entry_index =~= Map::<u128, u64>::empty());
    assert(state.system_index =~= Map::<u128, u64>::empty());
    assert(state.conversion_graph_index =~= Map::<u128, u64>::empty());
}

/// Loading the files that a consistent ledger wrote, its images as they are
/// and its indexes in their flat forms, gives a consistent ledger with the
/// same images and the same indexes.
pub proof fn lemma_reloading_keeps_consistency(state: LedgerView, files: LedgerFiles)
    requires
        ledger_is_consistent(state),
        files.accounts@ == state.accounts_image,
        files.transactions@ == state.transactions_image,
        files.entries@ == state.entries_image,
        files.systems@ == state.systems_image,
        files.conversion_graphs@ == state.conversion_graphs_image,
        is_flat_form(state.account_index, files.account_index@),
        is_flat_form(state.transaction_index, files.transaction_index@),
        is_flat_form(state.entry_index, files.entry_index@),
        is_flat_form(state.system_index, files.system_index@),
        is_flat_form(state.conversion_graph_index, files.conversion_graph_index@),
    ensures
        ledger_is_consistent(loaded(files)),
        loaded(files).account_index == state.account_index,
        loaded(files).transaction_index == state.transaction_index,
        loaded(files).entry_index == state.entry_index,
        loaded(files).system_index == state.system_index,
        loaded(files).conversion_graph_index == state.conversion_graph_index,
{
    lemma_flat_form_reads_back(state.account_index, files.account_index@);
    lemma_flat_form_reads_back(state.transaction_index, files.transaction_index@);
    lemma_flat_form_reads_back(state.entry_index, files.entry_index@);
    lemma_flat_form_reads_back(state.system_index, files.system_index@);
    lemma_flat_form_reads_back(state.conversion_graph_index, files.conversion_graph_index@);
}

/// Storing a system keeps the ledger consistent.
pub proof fn lemma_system_keeps_consistency(state: LedgerView, system: SystemView)
    requires
        ledger_is_consistent(state),
        images_fit(state),
        System::encoded(system, system_fields()) is Ok,
    ensures
        ledger_is_consistent(with_system(state, system)),
{
    lemma_append_keeps_consistency::<System>(
        state.systems_image,
        state.system_index,
        system_key(),
        system,
    );
}

/// Storing an account keeps the ledger consistent.
pub proof fn lemma_account_keeps_consistency(state: LedgerView, account: AccountView)
    requires
        ledger_is_consistent(state),
        images_fit(state),
        Account::encoded(account, account_fields()) is Ok,
    ensures
        ledger_is_consistent(with_account(state, account)),
{
    lemma_append_keeps_consistency::<Account>(
        state.accounts_image,
        state.account_index,
        account_key(),
        account,
    );
}

/// Appending entries changes the entries image, the entry index and the
/// entries in memory only, and keeps the ledger consistent.
pub proof fn lemma_entries_keep_consistency(state: LedgerView, entries: Seq<Entry>)
    requires
        ledger_is_consistent(state),
        with_entries(state, entries).entries_image.len() <= u64::MAX,
    ensures
        ledger_is_consistent(with_entries(state, entries)),
        state.entries_image.len() <= with_entries(state, entries).entries_image.len(),
        with_entries(state, entries) == (LedgerView {
            entries_image: with_entries(state, entries).entries_image,
            entry_index: with_entries(state, entries).entry_index,
            entries: with_entries(state, entries).entries,
            ..state
        }),
    decreases entries.len(),
{
    if entries.len() > 0 {
        let before = with_entries(state, entries.drop_last());
        let entry = entries.last();
        lemma_entries_keep_consistency(state, entries.drop_last());
        lemma_entry_roundtrip(entry, Seq::empty());
        lemma_append_keeps_consistency::<Entry>(
            before.entries_image,
            before.entry_index,
            entry_index_key(),
            entry,
        );
    }
}

/// Recording a transaction with its entries keeps the ledger consistent.
pub proof fn lemma_transaction_keeps_consistency(
    state: LedgerView,
    tx: TransactionView,
    entries: Seq<Entry>,
)
    requires
        ledger_is_consistent(state),
        images_fit(with_transaction(with_entries(state, entries), tx)),
        Transaction::encoded(tx, transaction_fields()) is Ok,
        Transaction::storable(tx),
    ensures
        ledger_is_consistent(with_transaction(with_entries(state, entries), tx)),
{
    lemma_entries_keep_consistency(state, entries);
    let middle = with_entries(state, entries);
    lemma_append_keeps_consistency::<Transaction>(
        middle.transactions_image,
        middle.transaction_index,
        transaction_index_key(),
        tx,
    );
}

/// Storing a conversion graph keeps the ledger consistent.
pub proof fn lemma_graph_keeps_consistency(state: LedgerView, graph: ConversionGraphView)
    requires
        ledger_is_consistent(state),
        state.conversion_graphs_image.len() <= u64::MAX,
        ConversionGraph::encoded(graph, conversion_graph_fields()) is Ok,
    ensures
        ledger_is_consistent(with_graph(state, graph)),
{
    lemma_written_graph_has_a_class(graph);
    if graph_key_class(graph.graph) == GraphKeyClass::Historical {
        assert forall|rest: Seq<u8>| #[trigger]
            ConversionGraph::decoded(
                record_bytes::<ConversionGraph>(graph) + rest,
                conversion_graph_fields(),
            ) == Err::<(ConversionGraphView, nat), Error>(Error::HistoricalRecord) by {
            lemma_historical_graph_is_refused(graph, rest);
        }
        assert(reads_as_historical::<ConversionGraph>(graph));
    }
    lemma_append_keeps_consistency::<ConversionGraph>(
        state.conversion_graphs_image,
        state.conversion_graph_index,
        conversion_graph_key(),
        graph,
    );
}

/// Archiving a graph keeps the ledger consistent.
pub proof fn lemma_archiving_keeps_consistency(
    state: LedgerView,
    existing: ConversionGraphView,
    now: i64,
)
    requires
        ledger_is_consistent(state),
        state.conversion_graphs_image.len() <= u64::MAX,
        archived(state, existing, now) is Ok,
    ensures
        ledger_is_consistent(archived(state, existing, now)->Ok_0),
        archived(state, existing, now)->Ok_0.conversion_graphs_image.len()
            > state.conversion_graphs_image.len(),
{
    let historical = historical_record(existing, now)->Ok_0;
    let image = image_without(state, existing)->Ok_0;
    let cleared = LedgerView { conversion_graphs_image: image, ..state };
    let id = derived_uuid(existing.graph).value;
    if state.conversion_graph_index.contains_key(id) {
        lemma_tombstone_keeps_consistency::<ConversionGraph>(
            state.conversion_graphs_image,
            state.conversion_graph_index,
            conversion_graph_key(),
            id,
        );
    }
    assert(image.len() == state.conversion_graphs_image.len());
    assert(ledger_is_consistent(cleared));
    lemma_graph_keeps_consistency(cleared, historical);
}

/// Setting a direction keeps the ledger consistent.
pub proof fn lemma_direction_keeps_consistency(
    state: LedgerView,
    from: Seq<char>,
    to: Seq<char>,
    rate: Double,
    now: i64,
)
    requires
        ledger_is_consistent(state),
        with_direction(state, from, to, rate, now) is Ok,
        with_direction(state, from, to, rate, now)->Ok_0.conversion_graphs_image.len()
            <= u64::MAX,
    ensures
        ledger_is_consistent(with_direction(state, from, to, rate, now)->Ok_0),
        with_direction(state, from, to, rate, now)->Ok_0.conversion_graphs_image.len()
            > state.conversion_graphs_image.len(),
{
    reveal(with_direction);
    let graph = direction_record(from, to, rate, now);
    let uuid = derived_uuid(graph.graph).value;
    if state.conversion_graphs.contains_key(uuid) {
        let cleared = archived(state, state.conversion_graphs[uuid], now)->Ok_0;
        let image = image_without(state, state.conversion_graphs[uuid])->Ok_0;
        assert(image.len() == state.conversion_graphs_image.len());
        lemma_archiving_keeps_consistency(state, state.conversion_graphs[uuid], now);
        lemma_graph_keeps_consistency(cleared, graph);
    } else {
        lemma_graph_keeps_consistency(state, graph);
    }
}

/// Creating a conversion keeps the ledger consistent, whether it succeeds or
/// is refused.
pub proof fn lemma_conversion_keeps_consistency(
    state: LedgerView,
    tokens: Seq<Seq<char>>,
    rate: Double,
    inverse_rate: Double,
    now: i64,
)
    requires
        ledger_is_consistent(state),
        conversion_outcome(state, tokens, rate, inverse_rate, now).1.conversion_graphs_image.len()
            <= u64::MAX,
    ensures
        ledger_is_consistent(conversion_outcome(state, tokens, rate, inverse_rate, now).1),
{
    if tokens.len() == 3 && state.systems.contains_key(derived_uuid(tokens[0]).value)
        && state.systems.contains_key(derived_uuid(tokens[2]).value) {
        let from = tokens[0];
        let to = tokens[2];
        if tokens[1] == "->"@ {
            if with_direction(state, from, to, rate, now) is Ok {
                lemma_direction_keeps_consistency(state, from, to, rate, now);
            }
        } else if tokens[1] == "<-"@ {
            if with_direction(state, to, from, rate, now) is Ok {
                lemma_direction_keeps_consistency(state, to, from, rate, now);
            }
        } else if tokens[1] == "<->"@ {
            if with_direction(state, from, to, rate, now) is Ok {
                let first = with_direction(state, from, to, rate, now)->Ok_0;
                if with_direction(first, to, from, inverse_rate, now) is Ok {
                    let after = with_direction(first, to, from, inverse_rate, now)->Ok_0;
                    lemma_direction_grows(first, to, from, inverse_rate, now);
                    lemma_direction_keeps_consistency(state, from, to, rate, now);
                    lemma_direction_keeps_consistency(first, to, from, inverse_rate, now);
                } else {
                    lemma_direction_keeps_consistency(state, from, to, rate, now);
                }
            }
        }
    }
}

/// Setting a direction makes the conversion graphs image longer.
pub proof fn lemma_direction_grows(
    state: LedgerView,
    from: Seq<char>,
    to: Seq<char>,
    rate: Double,
    now: i64,
)
    requires
        with_direction(state, from, to, rate, now) is Ok,
    ensures
        with_direction(state, from, to, rate, now)->Ok_0.conversion_graphs_image.len()
            > state.conversion_graphs_image.len(),
{
    reveal(with_direction);
    let graph = direction_record(from, to, rate, now);
    let uuid = derived_uuid(graph.graph).value;
    if state.conversion_graphs.contains_key(uuid) {
        let image = image_without(state, state.conversion_graphs[uuid])->Ok_0;
        assert(image.len() == state.conversion_graphs_image.len());
    }
}

} // verus!
