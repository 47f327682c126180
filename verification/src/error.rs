//! What can go wrong, by kind.

use vstd::prelude::*;
use crate::util::uuid::Uuid;

verus! {

/// Why an input that parsed was refused.
#[derive(Debug, Clone, Copy, PartialEq, Eq, Structural)]
pub enum Invalid {
    /// The amounts of a transaction do not add up to zero.
    UnbalancedTransaction,
    /// The amounts posted to the accounts of one system do not add up to zero.
    UnbalancedSystem(Uuid),
    /// The sums handed in are not one for each system that the entries touch.
    SumsMismatch,
    /// A graph expression is not three whitespace-separated tokens.
    BadGraphSyntax,
    /// The middle token of a graph expression is none of `->`, `<-`, `<->`.
    UnknownDirection,
    /// A graph key is neither a direction nor a time-bracketed direction.
    UnknownGraphKey,
    /// An instant has no calendar form.
    UnrepresentableTime,
    /// A byte that should name an account type names none.
    UnknownAccountType,
    /// A layout holds a field that the record type does not have.
    UnexpectedField,
    /// A value is longer than its length prefix can say.
    TooLong,
    /// A size does not fit the machine's address range.
    TooLarge,
}

/// What a lookup did not find.
#[derive(Debug, Clone, Copy, PartialEq, Eq, Structural)]
pub enum Missing {
    /// No account has this identifier.
    Account(Uuid),
    /// No system has this derived identifier.
    System(Uuid),
    /// The system on the left of a graph expression is unknown.
    SourceSystem,
    /// The system on the right of a graph expression is unknown.
    TargetSystem,
}

/// The kinds of failure that the store and the ledger report.
#[derive(Debug, Clone, Copy, PartialEq, Eq, Structural)]
pub enum Error {
    /// Accepted as syntax, rejected for what it says.
    InvalidData(Invalid),
    /// A referenced entity does not exist.
    NotFound(Missing),
    /// The liveness byte says the record was tombstoned.
    DeadRecord,
    /// The record is an archived conversion graph.
    HistoricalRecord,
    /// The record at the offset is not the one that was to be tombstoned.
    WrongRecord,
    /// The bytes end before the record does.
    UnexpectedEof,
    /// The bytes of a record make no sense.
    CorruptData,
}

} // verus!
