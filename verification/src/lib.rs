//! An embedded, append-only ledger store.
//!
//! Five record families (systems, conversion graphs, accounts, transactions
//! and entries) are kept in binary images, one per family, each record behind
//! a liveness byte. A secondary index per family maps identifiers to offsets,
//! and the [`Ledger`] keeps the records in memory, enforces double-entry
//! balance, and archives conversion rates when they change.
//!
//! The library works on the content of the files; reading and writing the
//! files themselves is left to its caller. Amounts and rates are doubles held
//! by their bits, so sums and inverse rates are handed in by the caller too.

pub mod db;
pub mod error;
pub mod index;
pub mod ledger_laws;
pub mod model;
pub mod platform;
pub mod storage;
pub mod util;

pub use db::{IndexFiles, Ledger, LedgerFiles, SystemGroups};
pub use error::{Error, Invalid, Missing};
pub use index::BTreeIndex;
pub use model::{Account, AccountType, ConversionGraph, Double, Entry, System, Transaction};
pub use storage::binary::{
    account_type_from_u8, account_type_to_u8, classify_graph_key, classify_key,
    classify_matches, compute_object_size, FromBinary, GraphKeyClass, ToBinary,
};
pub use storage::fields::read_length_prefixed_string;
pub use storage::layout::{
    account_layout, all_layouts, conversion_graph_layout, entry_layout, system_layout,
    transaction_layout, BinaryField, BinaryLayout, LengthType,
};
pub use storage::store::{
    BinaryStorage, LayoutCatalog, Record, RecordFamily, TombstoneReader, TombstoneWriter,
};
pub use util::uuid::{generate_deterministic_uuid, Fingerprint, Uuid};
