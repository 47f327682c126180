use std::time::{SystemTime, UNIX_EPOCH};
use zentry_db::{
    generate_deterministic_uuid, Account, AccountType, ConversionGraph, Double, Entry, Error,
    Invalid, Ledger, LedgerFiles, Missing, System, TombstoneReader, Transaction, Uuid,
};

const T0: i64 = 1_700_000_000;
const T1: i64 = 1_700_000_100;
const T0_TEXT: &str = "2023-11-14T22:13:20+00:00";
const T1_TEXT: &str = "2023-11-14T22:15:00+00:00";

fn double(x: f64) -> Double {
    Double::from_bits(x.to_bits())
}

fn number(d: Double) -> f64 {
    f64::from_bits(d.to_bits())
}

fn system(code: &str) -> System {
    System { id: String::from(code), description: format!("the {} system", code) }
}

fn account(n: u128, code: &str) -> Account {
    Account {
        id: Uuid::from_u128(n),
        name: format!("a{}", n),
        account_type: AccountType::Asset,
        created_at: T0,
        system_id: String::from(code),
    }
}

fn entry(n: u128, account: u128, amount: f64) -> Entry {
    Entry {
        id: Uuid::from_u128(1000 + n),
        transaction_id: Uuid::from_u128(77),
        account_id: Uuid::from_u128(account),
        amount: double(amount),
    }
}

fn transaction() -> Transaction {
    Transaction {
        id: Uuid::from_u128(77),
        description: String::from("transfer"),
        timestamp: T0,
        metadata: None,
    }
}

fn graph(expression: &str, rate: f64) -> ConversionGraph {
    ConversionGraph { graph: String::from(expression), rate: double(rate), rate_since: 0 }
}

fn ledger_with_systems_and_accounts(second_account_system: &str) -> Ledger {
    let mut ledger = Ledger::load(LedgerFiles::new());
    ledger.create_system(system("IDR")).unwrap();
    ledger.create_system(system("USD")).unwrap();
    ledger.create_account(account(1, "IDR")).unwrap();
    ledger.create_account(account(2, second_account_system)).unwrap();
    ledger
}

fn record(ledger: &mut Ledger, tx: Transaction, entries: Vec<Entry>) -> Result<(), Error> {
    let total: f64 = entries.iter().map(|e| number(e.amount)).sum();
    let groups = ledger.group_entries_by_system(&entries)?;
    let mut sums = vec![0.0f64; groups.systems.len()];
    for (i, e) in entries.iter().enumerate() {
        sums[groups.group_of[i]] += number(e.amount);
    }
    let sums = sums.into_iter().map(double).collect();
    ledger.record_transaction(tx, entries, double(total), sums)
}

fn reload(ledger: &Ledger) -> Ledger {
    let indexes = ledger.persist_indexes();
    Ledger::load(LedgerFiles {
        accounts: ledger.storage.accounts.clone(),
        transactions: ledger.storage.transactions.clone(),
        entries: ledger.storage.entries.clone(),
        systems: ledger.storage.systems.clone(),
        conversion_graphs: ledger.storage.conversion_graphs.clone(),
        account_index: indexes.account_index,
        transaction_index: indexes.transaction_index,
        entry_index: indexes.entry_index,
        system_index: indexes.system_index,
        conversion_graph_index: indexes.conversion_graph_index,
    })
}

fn key_of(text: &str) -> u128 {
    generate_deterministic_uuid(text).as_u128()
}

#[test]
fn loading_empty_files_gives_an_empty_ledger() {
    let ledger = Ledger::load(LedgerFiles::new());
    assert!(ledger.accounts.is_empty());
    assert!(ledger.transactions.is_empty());
    assert!(ledger.entries.is_empty());
    assert!(ledger.systems.is_empty());
    assert!(ledger.conversion_graphs.is_empty());
    assert_eq!(ledger.account_index.len(), 0);
    assert_eq!(ledger.conversion_graph_index.len(), 0);
}

#[test]
fn a_system_is_stored_indexed_and_mapped_under_its_derived_identifier() {
    let mut ledger = Ledger::load(LedgerFiles::new());
    ledger.create_system(system("IDR")).unwrap();
    ledger.create_system(system("USD")).unwrap();
    let idr = generate_deterministic_uuid("IDR");
    let usd = generate_deterministic_uuid("USD");
    assert_eq!(ledger.systems.len(), 2);
    assert_eq!(ledger.systems[&idr.as_u128()].id, "IDR");
    assert_eq!(ledger.system_index.get(&idr), Some(0));
    let second = ledger.system_index.get(&usd).unwrap();
    assert_eq!(second as usize, 1 + 4 + 1 + "the IDR system".len());
    let read: System = ledger.storage.read_single(second).unwrap();
    assert_eq!(read.id, "USD");
    assert_eq!(read.description, "the USD system");
}

#[test]
fn an_account_is_stored_indexed_and_mapped_under_its_identifier() {
    let ledger = ledger_with_systems_and_accounts("IDR");
    assert_eq!(ledger.accounts.len(), 2);
    assert_eq!(ledger.accounts[&2].name, "a2");
    assert_eq!(ledger.account_index.get(&Uuid::from_u128(1)), Some(0));
    let second = ledger.account_index.get(&Uuid::from_u128(2)).unwrap();
    let read: Account = ledger.storage.read_single(second).unwrap();
    assert_eq!(read.id, Uuid::from_u128(2));
}

#[test]
fn a_system_that_cannot_be_written_changes_nothing() {
    let mut ledger = Ledger::load(LedgerFiles::new());
    let long = System { id: "S".repeat(256), description: String::new() };
    assert_eq!(ledger.create_system(long), Err(Error::InvalidData(Invalid::TooLong)));
    assert!(ledger.systems.is_empty());
    assert!(ledger.storage.systems.is_empty());
    assert_eq!(ledger.system_index.len(), 0);
}

#[test]
fn balanced_transfer() {
    let mut ledger = ledger_with_systems_and_accounts("IDR");
    let entries = vec![entry(1, 1, 100.0), entry(2, 2, -100.0)];
    assert_eq!(record(&mut ledger, transaction(), entries), Ok(()));
    assert_eq!(ledger.storage.read::<Entry>().len(), 2);
    assert_eq!(ledger.entries.len(), 2);
    assert_eq!(ledger.transactions.len(), 1);
    assert_eq!(ledger.transactions[&77].description, "transfer");
    let first = ledger.entry_index.get(&generate_deterministic_uuid(&Uuid::from_u128(1001)));
    let second = ledger.entry_index.get(&generate_deterministic_uuid(&Uuid::from_u128(1002)));
    assert_eq!(first, Some(0));
    assert_eq!(second, Some(57));
    let read: Entry = ledger.storage.read_single(57).unwrap();
    assert_eq!(number(read.amount), -100.0);
    assert_eq!(
        ledger.transaction_index.get(&generate_deterministic_uuid(&Uuid::from_u128(77))),
        Some(0)
    );
    let loaded = reload(&ledger);
    assert_eq!(loaded.entries.len(), 2);
    assert_eq!(loaded.transactions.len(), 1);
    assert_eq!(loaded.accounts.len(), 2);
    assert_eq!(loaded.systems.len(), 2);
    assert_eq!(loaded.entry_index.len(), 2);
}

#[test]
fn unbalanced_transaction() {
    let mut ledger = ledger_with_systems_and_accounts("IDR");
    let entries = vec![entry(1, 1, 100.0), entry(2, 2, -90.0)];
    assert_eq!(
        record(&mut ledger, transaction(), entries),
        Err(Error::InvalidData(Invalid::UnbalancedTransaction))
    );
    assert!(ledger.entries.is_empty());
    assert!(ledger.transactions.is_empty());
    let loaded = reload(&ledger);
    assert!(loaded.entries.is_empty());
    assert!(loaded.transactions.is_empty());
    assert!(loaded.storage.entries.is_empty());
    assert!(loaded.storage.transactions.is_empty());
    assert_eq!(loaded.entry_index.len(), 0);
}

#[test]
fn cross_system_transfer() {
    let mut ledger = ledger_with_systems_and_accounts("USD");
    let entries = vec![entry(1, 1, 100.0), entry(2, 2, -100.0)];
    assert_eq!(
        record(&mut ledger, transaction(), entries),
        Err(Error::InvalidData(Invalid::UnbalancedSystem(generate_deterministic_uuid("IDR"))))
    );
    assert!(ledger.storage.entries.is_empty());
    assert!(ledger.storage.transactions.is_empty());
    let entries = vec![entry(1, 2, 100.0), entry(2, 1, -100.0)];
    assert_eq!(
        record(&mut ledger, transaction(), entries),
        Err(Error::InvalidData(Invalid::UnbalancedSystem(generate_deterministic_uuid("USD"))))
    );
}

#[test]
fn entries_are_grouped_by_system_in_order_of_first_appearance() {
    let ledger = ledger_with_systems_and_accounts("USD");
    let entries =
        vec![entry(1, 2, 1.0), entry(2, 1, 2.0), entry(3, 2, -1.0), entry(4, 1, -2.0)];
    let groups = ledger.group_entries_by_system(&entries).unwrap();
    assert_eq!(
        groups.systems,
        vec![generate_deterministic_uuid("USD"), generate_deterministic_uuid("IDR")]
    );
    assert_eq!(groups.group_of, vec![0, 1, 0, 1]);
    let none = ledger.group_entries_by_system(&Vec::new()).unwrap();
    assert!(none.systems.is_empty());
    assert!(none.group_of.is_empty());
}

#[test]
fn two_systems_that_each_balance() {
    let mut ledger = ledger_with_systems_and_accounts("USD");
    ledger.create_account(account(3, "IDR")).unwrap();
    ledger.create_account(account(4, "USD")).unwrap();
    let entries =
        vec![entry(1, 1, 100.0), entry(2, 2, 7.0), entry(3, 3, -100.0), entry(4, 4, -7.0)];
    assert_eq!(record(&mut ledger, transaction(), entries), Ok(()));
    assert_eq!(ledger.entries.len(), 4);
    assert_eq!(ledger.storage.entries.len(), 4 * 57);
}

#[test]
fn an_entry_for_an_account_that_does_not_exist() {
    let mut ledger = ledger_with_systems_and_accounts("IDR");
    let entries = vec![entry(1, 1, 100.0), entry(2, 9, -100.0)];
    assert_eq!(
        ledger.group_entries_by_system(&entries).err(),
        Some(Error::NotFound(Missing::Account(Uuid::from_u128(9))))
    );
    assert_eq!(
        ledger.record_transaction(transaction(), entries, double(0.0), vec![double(0.0)]),
        Err(Error::NotFound(Missing::Account(Uuid::from_u128(9))))
    );
    assert!(ledger.storage.entries.is_empty());
}

#[test]
fn an_account_of_a_system_that_does_not_exist() {
    let mut ledger = ledger_with_systems_and_accounts("SGD");
    let entries = vec![entry(1, 2, 5.0), entry(2, 2, -5.0)];
    assert_eq!(
        record(&mut ledger, transaction(), entries),
        Err(Error::NotFound(Missing::System(generate_deterministic_uuid("SGD"))))
    );
    assert!(ledger.storage.entries.is_empty());
}

#[test]
fn the_total_is_checked_before_the_accounts() {
    let mut ledger = ledger_with_systems_and_accounts("IDR");
    let entries = vec![entry(1, 9, 100.0)];
    assert_eq!(
        ledger.record_transaction(transaction(), entries, double(100.0), Vec::new()),
        Err(Error::InvalidData(Invalid::UnbalancedTransaction))
    );
}

#[test]
fn sums_that_are_not_one_for_each_system() {
    let mut ledger = ledger_with_systems_and_accounts("USD");
    let entries = vec![entry(1, 1, 0.0), entry(2, 2, 0.0)];
    assert_eq!(
        ledger.record_transaction(transaction(), entries, double(0.0), vec![double(0.0)]),
        Err(Error::InvalidData(Invalid::SumsMismatch))
    );
    assert!(ledger.storage.entries.is_empty());
}

#[test]
fn a_transaction_that_cannot_be_written_writes_no_entry() {
    let mut ledger = ledger_with_systems_and_accounts("IDR");
    let mut tx = transaction();
    tx.description = "d".repeat(300);
    let entries = vec![entry(1, 1, 100.0), entry(2, 2, -100.0)];
    assert_eq!(record(&mut ledger, tx, entries), Err(Error::InvalidData(Invalid::TooLong)));
    assert!(ledger.storage.entries.is_empty());
    assert!(ledger.entries.is_empty());
    assert_eq!(ledger.entry_index.len(), 0);
}

#[test]
fn a_transaction_without_entries() {
    let mut ledger = ledger_with_systems_and_accounts("IDR");
    assert_eq!(record(&mut ledger, transaction(), Vec::new()), Ok(()));
    assert_eq!(ledger.transactions.len(), 1);
    assert!(ledger.entries.is_empty());
}

#[test]
fn conversion_versioning() {
    let mut ledger = ledger_with_systems_and_accounts("USD");
    assert_eq!(
        ledger.create_conversion_graph_at(graph("USD -> IDR", 14000.0), double(0.0), T0),
        Ok(())
    );
    let first_len = ledger.storage.conversion_graphs.len();
    assert_eq!(
        ledger.create_conversion_graph_at(graph("USD -> IDR", 15000.0), double(0.0), T1),
        Ok(())
    );
    let image = &ledger.storage.conversion_graphs;
    assert_eq!(image[0], 0);
    assert_eq!(image[2], b'C');
    assert_eq!(&image[3..13], b"USD -> IDR");
    assert_eq!(&image[13..21], &14000.0f64.to_le_bytes());
    assert_eq!(&image[21..29], &T0.to_le_bytes());
    assert_eq!(first_len, 29);
    let historical_key = format!("{}[USD -> IDR]{}", T0_TEXT, T1_TEXT);
    let h = first_len;
    assert_eq!(image[h], 1);
    assert_eq!(image[h + 1] as usize, historical_key.len() + 1);
    assert_eq!(image[h + 2], b'H');
    let key_end = h + 3 + historical_key.len();
    assert_eq!(&image[h + 3..key_end], historical_key.as_bytes());
    assert_eq!(&image[key_end..key_end + 8], &14000.0f64.to_le_bytes());
    assert_eq!(&image[key_end + 8..key_end + 16], &T0.to_le_bytes());
    let c = key_end + 16;
    assert_eq!(image[c], 1);
    assert_eq!(image[c + 2], b'C');
    assert_eq!(&image[c + 3..c + 13], b"USD -> IDR");
    assert_eq!(&image[c + 13..c + 21], &15000.0f64.to_le_bytes());
    assert_eq!(&image[c + 21..c + 29], &T1.to_le_bytes());
    assert_eq!(image.len(), c + 29);

    let live = generate_deterministic_uuid("USD -> IDR");
    assert_eq!(ledger.conversion_graph_index.get(&live), Some(c as u64));
    assert_eq!(
        ledger.conversion_graph_index.get(&generate_deterministic_uuid(historical_key.as_str())),
        Some(h as u64)
    );
    assert_eq!(number(ledger.conversion_graphs[&live.as_u128()].rate), 15000.0);
    assert_eq!(ledger.conversion_graphs[&live.as_u128()].rate_since, T1);
    let archived = &ledger.conversion_graphs[&key_of(&historical_key)];
    assert_eq!(number(archived.rate), 14000.0);
    assert_eq!(archived.rate_since, T0);

    let loaded = reload(&ledger);
    assert_eq!(loaded.conversion_graphs.len(), 1);
    let only = &loaded.conversion_graphs[&live.as_u128()];
    assert_eq!(only.graph, "USD -> IDR");
    assert_eq!(number(only.rate), 15000.0);
    assert_eq!(only.rate_since, T1);
    assert_eq!(loaded.storage.read::<ConversionGraph>().len(), 1);
}

#[test]
fn bidirectional_creation() {
    let mut ledger = ledger_with_systems_and_accounts("USD");
    assert_eq!(
        ledger.create_conversion_graph_at(
            graph("USD <-> IDR", 14000.0),
            double(1.0 / 14000.0),
            T0
        ),
        Ok(())
    );
    let forward = generate_deterministic_uuid("USD -> IDR");
    let reverse = generate_deterministic_uuid("IDR -> USD");
    assert_eq!(ledger.conversion_graphs.len(), 2);
    let live = ledger.storage.read::<ConversionGraph>();
    assert_eq!(live.len(), 2);
    assert_eq!(live[0].graph, "USD -> IDR");
    assert_eq!(number(live[0].rate), 14000.0);
    assert_eq!(live[1].graph, "IDR -> USD");
    assert_eq!(number(live[1].rate), 1.0 / 14000.0);
    assert_eq!(live[0].rate_since, T0);
    assert_eq!(live[1].rate_since, T0);
    assert_eq!(ledger.conversion_graph_index.len(), 2);
    assert_eq!(ledger.conversion_graph_index.get(&forward), Some(0));
    assert_eq!(ledger.conversion_graph_index.get(&reverse), Some(29));
    assert_eq!(number(ledger.conversion_graphs[&reverse.as_u128()].rate), 1.0 / 14000.0);
}

#[test]
fn a_backward_arrow_sets_the_opposite_direction() {
    let mut ledger = ledger_with_systems_and_accounts("USD");
    assert_eq!(
        ledger.create_conversion_graph_at(graph("USD <- IDR", 0.5), double(2.0), T0),
        Ok(())
    );
    assert_eq!(ledger.conversion_graphs.len(), 1);
    let stored = &ledger.conversion_graphs[&key_of("IDR -> USD")];
    assert_eq!(stored.graph, "IDR -> USD");
    assert_eq!(number(stored.rate), 0.5);
    assert_eq!(stored.rate_since, T0);
}

#[test]
fn an_expression_is_cut_at_any_whitespace() {
    let mut ledger = ledger_with_systems_and_accounts("USD");
    assert_eq!(
        ledger.create_conversion_graph_at(graph("  USD\t->\n IDR  ", 3.0), double(0.0), T0),
        Ok(())
    );
    assert_eq!(ledger.conversion_graphs[&key_of("USD -> IDR")].graph, "USD -> IDR");
}

#[test]
fn an_expression_that_is_not_three_tokens() {
    let mut ledger = ledger_with_systems_and_accounts("USD");
    for expression in ["", "USD", "USD ->", "USD->IDR", "USD -> IDR now", "USD - > IDR"] {
        assert_eq!(
            ledger.create_conversion_graph_at(graph(expression, 1.0), double(1.0), T0),
            Err(Error::InvalidData(Invalid::BadGraphSyntax))
        );
    }
    assert!(ledger.storage.conversion_graphs.is_empty());
    assert!(ledger.conversion_graphs.is_empty());
}

#[test]
fn a_direction_that_is_no_arrow() {
    let mut ledger = ledger_with_systems_and_accounts("USD");
    for expression in ["USD => IDR", "USD to IDR", "USD <-- IDR", "USD >- IDR"] {
        assert_eq!(
            ledger.create_conversion_graph_at(graph(expression, 1.0), double(1.0), T0),
            Err(Error::InvalidData(Invalid::UnknownDirection))
        );
    }
    assert!(ledger.storage.conversion_graphs.is_empty());
}

#[test]
fn a_graph_between_systems_that_do_not_exist() {
    let mut ledger = ledger_with_systems_and_accounts("USD");
    assert_eq!(
        ledger.create_conversion_graph_at(graph("SGD -> IDR", 1.0), double(1.0), T0),
        Err(Error::NotFound(Missing::SourceSystem))
    );
    assert_eq!(
        ledger.create_conversion_graph_at(graph("USD -> SGD", 1.0), double(1.0), T0),
        Err(Error::NotFound(Missing::TargetSystem))
    );
    assert_eq!(
        ledger.create_conversion_graph_at(graph("SGD => EUR", 1.0), double(1.0), T0),
        Err(Error::NotFound(Missing::SourceSystem))
    );
    assert!(ledger.storage.conversion_graphs.is_empty());
}

#[test]
fn an_instant_without_a_calendar_form_cannot_archive() {
    let mut ledger = ledger_with_systems_and_accounts("USD");
    ledger.create_conversion_graph_at(graph("USD -> IDR", 2.0), double(0.5), i64::MAX).unwrap();
    let before = ledger.storage.conversion_graphs.clone();
    assert_eq!(
        ledger.create_conversion_graph_at(graph("USD -> IDR", 3.0), double(0.5), T0),
        Err(Error::InvalidData(Invalid::UnrepresentableTime))
    );
    assert_eq!(ledger.storage.conversion_graphs, before);
    assert_eq!(number(ledger.conversion_graphs[&key_of("USD -> IDR")].rate), 2.0);
    assert_eq!(ledger.conversion_graph_index.len(), 1);
}

#[test]
fn a_stale_index_entry_pointing_at_another_record_stops_the_archiving() {
    let mut ledger = ledger_with_systems_and_accounts("USD");
    ledger.create_conversion_graph_at(graph("USD -> IDR", 2.0), double(0.5), T0).unwrap();
    ledger.create_conversion_graph_at(graph("IDR -> USD", 0.5), double(2.0), T0).unwrap();
    ledger.conversion_graph_index.insert(generate_deterministic_uuid("USD -> IDR"), 29);
    let before = ledger.storage.conversion_graphs.clone();
    assert_eq!(
        ledger.create_conversion_graph_at(graph("USD -> IDR", 3.0), double(0.5), T1),
        Err(Error::WrongRecord)
    );
    assert_eq!(ledger.storage.conversion_graphs, before);
}

#[test]
fn an_index_entry_pointing_at_a_dead_record_counts_as_absent() {
    let mut ledger = ledger_with_systems_and_accounts("USD");
    ledger.create_conversion_graph_at(graph("USD -> IDR", 2.0), double(0.5), T0).unwrap();
    ledger.storage.conversion_graphs[0] = 0;
    assert_eq!(
        ledger.create_conversion_graph_at(graph("USD -> IDR", 3.0), double(0.5), T1),
        Ok(())
    );
    assert_eq!(ledger.storage.read::<ConversionGraph>().len(), 1);
    assert_eq!(number(ledger.conversion_graphs[&key_of("USD -> IDR")].rate), 3.0);
}

#[test]
fn updating_both_directions_archives_both() {
    let mut ledger = ledger_with_systems_and_accounts("USD");
    ledger.create_conversion_graph_at(graph("USD <-> IDR", 4.0), double(0.25), T0).unwrap();
    ledger.create_conversion_graph_at(graph("IDR <-> USD", 0.2), double(5.0), T1).unwrap();
    let live = ledger.storage.read::<ConversionGraph>();
    assert_eq!(live.len(), 2);
    assert_eq!(live[0].graph, "IDR -> USD");
    assert_eq!(number(live[0].rate), 0.2);
    assert_eq!(live[1].graph, "USD -> IDR");
    assert_eq!(number(live[1].rate), 5.0);
    assert_eq!(ledger.storage.conversion_graphs[0], 0);
    assert_eq!(ledger.storage.conversion_graphs[29], 0);
    assert_eq!(ledger.conversion_graphs.len(), 4);
    assert_eq!(ledger.conversion_graph_index.len(), 4);
    let loaded = reload(&ledger);
    assert_eq!(loaded.conversion_graphs.len(), 2);
}

#[test]
fn creating_now_stamps_the_present_instant() {
    let mut ledger = ledger_with_systems_and_accounts("USD");
    let before = SystemTime::now().duration_since(UNIX_EPOCH).unwrap().as_secs() as i64;
    assert_eq!(ledger.create_conversion_graph(graph("USD -> IDR", 2.0), double(0.5)), Ok(()));
    let after = SystemTime::now().duration_since(UNIX_EPOCH).unwrap().as_secs() as i64;
    let stamped = ledger.conversion_graphs[&key_of("USD -> IDR")].rate_since;
    assert!(before <= stamped && stamped <= after);
    assert!(stamped > T0);
}

#[test]
fn recovery_tolerance() {
    let mut ledger = Ledger::load(LedgerFiles::new());
    for n in 1..=4u128 {
        ledger.create_account(account(n, "IDR")).unwrap();
    }
    let third = ledger.account_index.get(&Uuid::from_u128(3)).unwrap() as usize;
    let mut files = LedgerFiles::new();
    files.accounts = ledger.storage.accounts.clone();
    assert!(files.accounts.len() - third < 255);
    files.accounts[third + 1 + 16] = 255;
    let loaded = Ledger::load(files);
    let mut ids: Vec<u128> = loaded.accounts.keys().copied().collect();
    ids.sort();
    assert_eq!(ids, vec![1, 2]);
}

#[test]
fn a_corrupt_record_that_stays_inside_the_file_is_stepped_over() {
    let mut ledger = Ledger::load(LedgerFiles::new());
    for n in 1..=4u128 {
        ledger.create_account(account(n, "IDR")).unwrap();
    }
    let second = ledger.account_index.get(&Uuid::from_u128(2)).unwrap() as usize;
    let mut files = LedgerFiles::new();
    files.accounts = ledger.storage.accounts.clone();
    files.accounts[second + 1 + 16 + 3] = 200;
    let loaded = Ledger::load(files);
    let mut ids: Vec<u128> = loaded.accounts.keys().copied().collect();
    ids.sort();
    assert_eq!(ids, vec![1, 3, 4]);
}

#[test]
fn the_indexes_are_loaded_from_their_files() {
    let ledger = ledger_with_systems_and_accounts("USD");
    let files = ledger.persist_indexes();
    assert_eq!(files.account_index.len(), 48);
    assert_eq!(files.system_index.len(), 48);
    assert!(files.entry_index.is_empty());
    let loaded = reload(&ledger);
    assert_eq!(loaded.account_index.entries(), ledger.account_index.entries());
    assert_eq!(loaded.system_index.entries(), ledger.system_index.entries());
    assert_eq!(loaded.system_index.get(&generate_deterministic_uuid("IDR")), Some(0));
}

#[test]
fn every_index_entry_points_at_its_record() {
    let mut ledger = ledger_with_systems_and_accounts("USD");
    ledger.create_conversion_graph_at(graph("USD <-> IDR", 4.0), double(0.25), T0).unwrap();
    ledger.create_conversion_graph_at(graph("USD -> IDR", 5.0), double(0.2), T1).unwrap();
    for (key, offset) in ledger.conversion_graph_index.entries() {
        match ledger.storage.read_single::<ConversionGraph>(offset) {
            Ok(found) => assert_eq!(key_of(&found.graph), key),
            Err(e) => assert!(e == Error::DeadRecord || e == Error::HistoricalRecord),
        }
    }
    for (key, offset) in ledger.system_index.entries() {
        let found: System = ledger.storage.read_single(offset).unwrap();
        assert_eq!(key_of(&found.id), key);
    }
    for (key, offset) in ledger.account_index.entries() {
        let found: Account = ledger.storage.read_single(offset).unwrap();
        assert_eq!(found.id.as_u128(), key);
    }
}
