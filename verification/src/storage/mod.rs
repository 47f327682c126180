pub mod accounts;
pub mod binary;
pub mod conversion_graphs;
pub mod entries;
pub mod fields;
pub mod layout;
pub mod log;
pub mod store;
pub mod systems;
pub mod transactions;
pub mod wire;
