//! The five record families and the values they are made of.
//!
//! Instants are whole seconds since the epoch. Amounts and rates are doubles
//! held by their bit pattern, which is what the files store.

use vstd::prelude::*;
use vstd::std_specs::cmp::PartialEqSpecImpl;
use crate::util::uuid::Uuid;

verus! {

/// An IEEE-754 double, held by its 64 bits.
#[derive(Debug, Clone, Copy, PartialEq, Eq, Structural, Hash)]
pub struct Double {
    pub bits: u64,
}

/// The bits of the smallest double that is more than one ulp of `1`: two to
/// the power of minus fifty-two.
pub const EPSILON_BITS: u64 = 0x3CB0_0000_0000_0000;

/// The bits of positive infinity.
pub const INFINITY_BITS: u64 = 0x7FF0_0000_0000_0000;

impl Double {
    /// The bits without the sign.
    pub open spec fn spec_magnitude(self) -> u64 {
        (self.bits % 0x8000_0000_0000_0000) as u64
    }

    /// Whether the bits spell no number.
    pub open spec fn spec_is_nan(self) -> bool {
        self.spec_magnitude() > INFINITY_BITS
    }

    /// Whether the absolute value is a number greater than epsilon. Among
    /// numbers, a greater absolute value has greater bits without the sign.
    pub open spec fn spec_exceeds_epsilon(self) -> bool {
        EPSILON_BITS < self.spec_magnitude() <= INFINITY_BITS
    }

    pub fn from_bits(bits: u64) -> (d: Double)
        ensures
            d.bits == bits,
    {
        Double { bits }
    }

    pub fn to_bits(&self) -> (bits: u64)
        ensures
            bits == self.bits,
    {
        self.bits
    }

    /// Whether the bits spell no number.
    pub fn is_nan(&self) -> (r: bool)
        ensures
            r == self.spec_is_nan(),
    {
        self.bits % 0x8000_0000_0000_0000 > INFINITY_BITS
    }

    /// Whether the absolute value is a number greater than epsilon; a sum
    /// that is no number does not exceed it.
    pub fn exceeds_epsilon(&self) -> (r: bool)
        ensures
            r == self.spec_exceeds_epsilon(),
    {
        let magnitude: u64 = self.bits % 0x8000_0000_0000_0000;
        EPSILON_BITS < magnitude && magnitude <= INFINITY_BITS
    }
}

/// A currency or unit namespace, known by a short code.
#[derive(Debug)]
pub struct System {
    pub id: String,
    pub description: String,
}

pub struct SystemView {
    pub id: Seq<char>,
    pub description: Seq<char>,
}

impl View for System {
    type V = SystemView;

    open spec fn view(&self) -> SystemView {
        SystemView { id: self.id@, description: self.description@ }
    }
}

impl Clone for System {
    fn clone(&self) -> (copy: Self)
        ensures
            copy == *self,
    {
        System { id: self.id.clone(), description: self.description.clone() }
    }
}

/// Systems are the same record when their codes are the same.
impl PartialEq for System {
    fn eq(&self, other: &Self) -> (r: bool) {
        self.id == other.id
    }
}

impl PartialEqSpecImpl for System {
    open spec fn obeys_eq_spec() -> bool {
        true
    }

    open spec fn eq_spec(&self, other: &Self) -> bool {
        self.id@ == other.id@
    }
}

impl Eq for System {}

/// A directed conversion between two systems: an amount of the first times
/// `rate` is an amount of the second, from `rate_since` on.
///
/// Stored graphs have the form `"A -> B"`. Callers may also write `"A <- B"`
/// and `"A <-> B"`; the ledger turns those into one or two stored graphs.
#[derive(Debug)]
pub struct ConversionGraph {
    pub graph: String,
    pub rate: Double,
    pub rate_since: i64,
}

pub struct ConversionGraphView {
    pub graph: Seq<char>,
    pub rate: Double,
    pub rate_since: i64,
}

impl View for ConversionGraph {
    type V = ConversionGraphView;

    open spec fn view(&self) -> ConversionGraphView {
        ConversionGraphView { graph: self.graph@, rate: self.rate, rate_since: self.rate_since }
    }
}

impl Clone for ConversionGraph {
    fn clone(&self) -> (copy: Self)
        ensures
            copy == *self,
    {
        ConversionGraph { graph: self.graph.clone(), rate: self.rate, rate_since: self.rate_since }
    }
}

/// Conversion graphs are the same record when their keys are the same.
impl PartialEq for ConversionGraph {
    fn eq(&self, other: &Self) -> (r: bool) {
        self.graph == other.graph
    }
}

impl PartialEqSpecImpl for ConversionGraph {
    open spec fn obeys_eq_spec() -> bool {
        true
    }

    open spec fn eq_spec(&self, other: &Self) -> bool {
        self.graph@ == other.graph@
    }
}

impl Eq for ConversionGraph {}

#[derive(Debug, Clone, Copy, PartialEq, Eq, Structural, Hash)]
pub enum AccountType {
    Asset,
    Liability,
    Equity,
    Revenue,
    Expense,
}

#[derive(Debug)]
pub struct Account {
    pub id: Uuid,
    pub name: String,
    pub account_type: AccountType,
    pub created_at: i64,
    pub system_id: String,
}

pub struct AccountView {
    pub id: Uuid,
    pub name: Seq<char>,
    pub account_type: AccountType,
    pub created_at: i64,
    pub system_id: Seq<char>,
}

impl View for Account {
    type V = AccountView;

    open spec fn view(&self) -> AccountView {
        AccountView {
            id: self.id,
            name: self.name@,
            account_type: self.account_type,
            created_at: self.created_at,
            system_id: self.system_id@,
        }
    }
}

impl Clone for Account {
    fn clone(&self) -> (copy: Self)
        ensures
            copy == *self,
    {
        Account {
            id: self.id,
            name: self.name.clone(),
            account_type: self.account_type,
            created_at: self.created_at,
            system_id: self.system_id.clone(),
        }
    }
}

/// Accounts are the same record when their identifiers are the same.
impl PartialEq for Account {
    fn eq(&self, other: &Self) -> (r: bool) {
        self.id == other.id
    }
}

impl PartialEqSpecImpl for Account {
    open spec fn obeys_eq_spec() -> bool {
        true
    }

    open spec fn eq_spec(&self, other: &Self) -> bool {
        self.id == other.id
    }
}

impl Eq for Account {}

/// A double-entry transaction. `metadata`, where present, is JSON text.
#[derive(Debug)]
pub struct Transaction {
    pub id: Uuid,
    pub description: String,
    pub timestamp: i64,
    pub metadata: Option<String>,
}

pub struct TransactionView {
    pub id: Uuid,
    pub description: Seq<char>,
    pub timestamp: i64,
    pub metadata: Option<Seq<char>>,
}

impl View for Transaction {
    type V = TransactionView;

    open spec fn view(&self) -> TransactionView {
        TransactionView {
            id: self.id,
            description: self.description@,
            timestamp: self.timestamp,
            metadata: match self.metadata {
                Some(text) => Some(text@),
                None => None,
            },
        }
    }
}

impl Clone for Transaction {
    fn clone(&self) -> (copy: Self)
        ensures
            copy == *self,
    {
        let metadata = match &self.metadata {
            Some(text) => Some(text.clone()),
            None => None,
        };
        Transaction {
            id: self.id,
            description: self.description.clone(),
            timestamp: self.timestamp,
            metadata,
        }
    }
}

/// Transactions are the same record when their identifiers are the same.
impl PartialEq for Transaction {
    fn eq(&self, other: &Self) -> (r: bool) {
        self.id == other.id
    }
}

impl PartialEqSpecImpl for Transaction {
    open spec fn obeys_eq_spec() -> bool {
        true
    }

    open spec fn eq_spec(&self, other: &Self) -> bool {
        self.id == other.id
    }
}

impl Eq for Transaction {}

/// One posting of a transaction to an account: a positive amount is a debit,
/// a negative one a credit.
#[derive(Debug, Clone, Copy)]
pub struct Entry {
    pub id: Uuid,
    pub transaction_id: Uuid,
    pub account_id: Uuid,
    pub amount: Double,
}

impl View for Entry {
    type V = Entry;

    open spec fn view(&self) -> Entry {
        *self
    }
}

/// Entries are the same record when their identifiers are the same.
impl PartialEq for Entry {
    fn eq(&self, other: &Self) -> (r: bool) {
        self.id == other.id
    }
}

impl PartialEqSpecImpl for Entry {
    open spec fn obeys_eq_spec() -> bool {
        true
    }

    open spec fn eq_spec(&self, other: &Self) -> bool {
        self.id == other.id
    }
}

impl Eq for Entry {}

} // verus!
