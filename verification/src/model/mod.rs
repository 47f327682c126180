pub mod types;

pub use types::{
    Account, AccountType, AccountView, ConversionGraph, ConversionGraphView, Double, Entry,
    System, SystemView, Transaction, TransactionView, EPSILON_BITS, INFINITY_BITS,
};
