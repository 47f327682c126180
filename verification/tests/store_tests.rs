use zentry_db::{
    Account, AccountType, BinaryStorage, ConversionGraph, Double, Entry, Error, RecordFamily,
    System, TombstoneReader, TombstoneWriter, Uuid,
};

fn empty_store() -> BinaryStorage {
    BinaryStorage::new(Vec::new(), Vec::new(), Vec::new(), Vec::new(), Vec::new())
}

fn account(n: u128, name: &str) -> Account {
    Account {
        id: Uuid::from_u128(n),
        name: String::from(name),
        account_type: AccountType::Asset,
        created_at: 10,
        system_id: String::from("IDR"),
    }
}

fn graph(key: &str, rate: f64) -> ConversionGraph {
    ConversionGraph {
        graph: String::from(key),
        rate: Double::from_bits(rate.to_bits()),
        rate_since: 5,
    }
}

#[test]
fn a_new_store_is_in_the_layouts_of_the_catalog() {
    let store = empty_store();
    assert_eq!(store.layouts.layout(RecordFamily::Accounts).name, "Account");
    assert_eq!(store.layouts.layout(RecordFamily::Transactions).fields.len(), 4);
    assert_eq!(store.layouts.layout(RecordFamily::Entries).fields.len(), 4);
    assert_eq!(store.layouts.layout(RecordFamily::Systems).fields.len(), 2);
    assert_eq!(store.layouts.layout(RecordFamily::ConversionGraphs).name, "ConversionGraph");
    assert_eq!(store.len(RecordFamily::Accounts), 0);
}

#[test]
fn what_was_appended_is_read_at_its_offset() {
    let mut store = empty_store();
    let (first, _) = store.write(account(1, "a1")).unwrap();
    let (second, _) = store.write(account(2, "second account")).unwrap();
    assert_eq!(first, 0);
    assert_eq!(second as usize, 1 + 16 + 3 + 1 + 8 + 4);
    assert_eq!(store.accounts[0], 1);
    assert_eq!(store.accounts[second as usize], 1);
    let read: Account = store.read_single(second).unwrap();
    assert_eq!(read.id, Uuid::from_u128(2));
    assert_eq!(read.name, "second account");
    let read: Account = store.read_single(first).unwrap();
    assert_eq!(read.name, "a1");
    assert_eq!(store.len(RecordFamily::Accounts), store.accounts.len());
    assert_eq!(store.len(RecordFamily::Systems), 0);
}

#[test]
fn writing_hands_the_record_back() {
    let mut store = empty_store();
    let (_, back) = store.write(account(9, "kept")).unwrap();
    assert_eq!(back.name, "kept");
    assert_eq!(back.id, Uuid::from_u128(9));
}

#[test]
fn each_family_has_an_image_of_its_own() {
    let mut store = empty_store();
    store.write(account(1, "a")).unwrap();
    store.write(System { id: String::from("IDR"), description: String::new() }).unwrap();
    store
        .write(Entry {
            id: Uuid::from_u128(1),
            transaction_id: Uuid::from_u128(2),
            account_id: Uuid::from_u128(3),
            amount: Double::from_bits(0),
        })
        .unwrap();
    assert_eq!(store.systems, b"\x01\x03IDR\x00".to_vec());
    assert_eq!(store.entries.len(), 57);
    assert!(store.transactions.is_empty());
    assert!(store.conversion_graphs.is_empty());
}

#[test]
fn a_record_that_cannot_be_written_changes_nothing() {
    let mut store = empty_store();
    store.write(account(1, "a")).unwrap();
    let before = store.accounts.clone();
    assert!(store.write(account(2, &"n".repeat(300))).is_err());
    assert_eq!(store.accounts, before);
}

#[test]
fn reading_at_or_past_the_end_is_an_unexpected_end() {
    let mut store = empty_store();
    store.write(account(1, "a")).unwrap();
    let end = store.accounts.len() as u64;
    assert_eq!(store.read_single::<Account>(end).err(), Some(Error::UnexpectedEof));
    assert_eq!(store.read_single::<Account>(end + 1).err(), Some(Error::UnexpectedEof));
    assert_eq!(store.read_single::<Account>(u64::MAX).err(), Some(Error::UnexpectedEof));
}

#[test]
fn a_tombstoned_record_reads_as_dead_and_keeps_its_bytes() {
    let mut store = empty_store();
    let (first, _) = store.write(account(1, "a1")).unwrap();
    let (second, _) = store.write(account(2, "a2")).unwrap();
    let before = store.accounts.clone();
    assert_eq!(store.tombstone(account(1, "whatever the name"), first), Ok(()));
    assert_eq!(store.accounts.len(), before.len());
    assert_eq!(store.accounts[0], 0);
    assert_eq!(store.accounts[1..], before[1..]);
    assert_eq!(store.read_single::<Account>(first).err(), Some(Error::DeadRecord));
    let read: Account = store.read_single(second).unwrap();
    assert_eq!(read.name, "a2");
}

#[test]
fn tombstoning_another_record_than_the_one_there_is_refused() {
    let mut store = empty_store();
    let (first, _) = store.write(account(1, "a1")).unwrap();
    let before = store.accounts.clone();
    assert_eq!(store.tombstone(account(2, "a1"), first), Err(Error::WrongRecord));
    assert_eq!(store.accounts, before);
}

#[test]
fn tombstoning_twice_reports_the_dead_record() {
    let mut store = empty_store();
    let (first, _) = store.write(account(1, "a1")).unwrap();
    store.tombstone(account(1, "a1"), first).unwrap();
    assert_eq!(store.tombstone(account(1, "a1"), first), Err(Error::DeadRecord));
    assert_eq!(store.tombstone(account(1, "a1"), 10_000), Err(Error::UnexpectedEof));
}

#[test]
fn any_liveness_byte_but_one_counts_as_tombstoned() {
    let mut store = empty_store();
    store.write(account(1, "a1")).unwrap();
    store.write(account(2, "a2")).unwrap();
    store.accounts[0] = 7;
    assert!(store.is_tombstone_byte(0));
    assert!(store.is_tombstone_byte(7));
    assert!(!store.is_tombstone_byte(1));
    assert_eq!(store.read_single::<Account>(0).err(), Some(Error::DeadRecord));
    let names: Vec<String> = store.read::<Account>().into_iter().map(|a| a.name).collect();
    assert_eq!(names, vec!["a2"]);
}

#[test]
fn a_scan_yields_the_live_records_in_file_order() {
    let mut store = empty_store();
    let mut offsets = Vec::new();
    for n in 0..6u128 {
        let (offset, _) = store.write(account(n, &format!("account {}", n))).unwrap();
        offsets.push(offset);
    }
    store.tombstone(account(1, ""), offsets[1]).unwrap();
    store.tombstone(account(4, ""), offsets[4]).unwrap();
    store.tombstone(account(5, ""), offsets[5]).unwrap();
    let ids: Vec<u128> = store.read::<Account>().iter().map(|a| a.id.as_u128()).collect();
    assert_eq!(ids, vec![0, 2, 3]);
}

#[test]
fn a_scan_of_an_empty_image_yields_nothing() {
    let store = empty_store();
    assert!(store.read::<Account>().is_empty());
    assert!(store.read::<ConversionGraph>().is_empty());
}

#[test]
fn a_scan_steps_over_historical_graphs() {
    let mut store = empty_store();
    store.write(graph("USD -> IDR", 14000.0)).unwrap();
    store
        .write(graph(
            "2024-01-01T00:00:00+00:00[USD -> IDR]2024-06-01T00:00:00+00:00",
            13000.0,
        ))
        .unwrap();
    store.write(graph("IDR -> USD", 0.5)).unwrap();
    let keys: Vec<String> = store.read::<ConversionGraph>().into_iter().map(|g| g.graph).collect();
    assert_eq!(keys, vec!["USD -> IDR", "IDR -> USD"]);
}

#[test]
fn a_scan_steps_over_records_that_make_no_sense() {
    let mut store = empty_store();
    store.write(account(1, "a1")).unwrap();
    let (second, _) = store.write(account(2, "a2")).unwrap();
    store.write(account(3, "a3")).unwrap();
    let type_at = second as usize + 1 + 16 + 3;
    store.accounts[type_at] = 0x77;
    let names: Vec<String> = store.read::<Account>().into_iter().map(|a| a.name).collect();
    assert_eq!(names, vec!["a1", "a3"]);
}

#[test]
fn a_scan_ends_where_a_record_runs_past_the_end() {
    let mut store = empty_store();
    store.write(account(1, "a1")).unwrap();
    store.write(account(2, "a2")).unwrap();
    let cut = store.accounts.len() - 2;
    store.accounts.truncate(cut);
    let names: Vec<String> = store.read::<Account>().into_iter().map(|a| a.name).collect();
    assert_eq!(names, vec!["a1"]);
}

#[test]
fn one_step_of_a_scan_reports_the_record_and_where_to_go_on() {
    let mut store = empty_store();
    let (first, _) = store.write(account(1, "a1")).unwrap();
    let (second, _) = store.write(account(2, "a2")).unwrap();
    store.tombstone(account(1, ""), first).unwrap();
    let (outcome, next) = store.read_or_skip::<Account>(0);
    assert_eq!(outcome.err(), Some(Error::DeadRecord));
    assert_eq!(next as u64, second);
    let (outcome, next) = store.read_or_skip::<Account>(next);
    assert_eq!(outcome.unwrap().name, "a2");
    assert_eq!(next, store.accounts.len());
    let (outcome, after) = store.read_or_skip::<Account>(next);
    assert_eq!(outcome.err(), Some(Error::UnexpectedEof));
    assert_eq!(after, next);
}

#[test]
fn which_errors_a_scan_ignores() {
    let store = empty_store();
    assert!(store.is_ignorable_error(&Error::DeadRecord));
    assert!(store.is_ignorable_error(&Error::HistoricalRecord));
    assert!(store.is_ignorable_error(&Error::CorruptData));
    assert!(!store.is_ignorable_error(&Error::UnexpectedEof));
    assert!(!store.is_ignorable_error(&Error::WrongRecord));
}

#[test]
fn graphs_are_the_same_record_when_their_keys_are() {
    let mut store = empty_store();
    let (offset, _) = store.write(graph("USD -> IDR", 14000.0)).unwrap();
    assert_eq!(store.tombstone(graph("IDR -> USD", 14000.0), offset), Err(Error::WrongRecord));
    assert_eq!(store.tombstone(graph("USD -> IDR", 1.0), offset), Ok(()));
    assert_eq!(store.read_single::<ConversionGraph>(offset).err(), Some(Error::DeadRecord));
}

#[test]
fn systems_are_the_same_record_when_their_codes_are() {
    let mut store = empty_store();
    let usd = System { id: String::from("USD"), description: String::from("dollar") };
    let (offset, _) = store.write(usd.clone()).unwrap();
    let other = System { id: String::from("IDR"), description: String::from("dollar") };
    assert_eq!(store.tombstone(other, offset), Err(Error::WrongRecord));
    let same = System { id: String::from("USD"), description: String::from("changed") };
    assert!(usd == same);
    assert_eq!(store.tombstone(same, offset), Ok(()));
}
