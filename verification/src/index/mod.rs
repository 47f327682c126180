pub mod btree;

pub use btree::BTreeIndex;
