pub mod bin_layout;

pub use bin_layout::{
    account_fields, account_layout, all_layouts, conversion_graph_fields,
    conversion_graph_layout, entry_fields, entry_layout, system_fields, system_layout,
    transaction_fields, transaction_layout, BinaryField, BinaryLayout, LengthType,
};
