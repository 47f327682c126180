use zentry_db::{
    account_layout, account_type_from_u8, account_type_to_u8, all_layouts,
    conversion_graph_layout, entry_layout, system_layout, transaction_layout, AccountType,
    BinaryField, LengthType,
};

fn describe(field: &BinaryField) -> String {
    match field {
        BinaryField::Uuid(name) => format!("uuid:{}", name),
        BinaryField::U8(name) => format!("u8:{}", name),
        BinaryField::U32(name) => format!("u32:{}", name),
        BinaryField::I64(name) => format!("i64:{}", name),
        BinaryField::F64(name) => format!("f64:{}", name),
        BinaryField::LengthPrefixed { length_type, name } => {
            format!("lp{}:{}", length_type.byte_len(), name)
        }
    }
}

fn describe_all(fields: &Vec<BinaryField>) -> Vec<String> {
    fields.iter().map(describe).collect()
}

#[test]
fn length_prefix_widths() {
    assert_eq!(LengthType::U8.byte_len(), 1);
    assert_eq!(LengthType::U16.byte_len(), 2);
    assert_eq!(LengthType::U32.byte_len(), 4);
}

#[test]
fn account_layout_lists_its_fields_in_order() {
    let layout = account_layout();
    assert_eq!(layout.name, "Account");
    assert_eq!(
        describe_all(&layout.fields),
        vec!["uuid:id", "lp1:name", "u8:account_type", "i64:created_at", "lp1:system_id"]
    );
}

#[test]
fn transaction_layout_lists_its_fields_in_order() {
    let layout = transaction_layout();
    assert_eq!(layout.name, "Transaction");
    assert_eq!(
        describe_all(&layout.fields),
        vec!["uuid:id", "lp1:description", "lp4:metadata", "i64:timestamp"]
    );
}

#[test]
fn entry_layout_lists_its_fields_in_order() {
    let layout = entry_layout();
    assert_eq!(layout.name, "Entry");
    assert_eq!(
        describe_all(&layout.fields),
        vec!["uuid:id", "uuid:transaction_id", "uuid:account_id", "f64:amount"]
    );
}

#[test]
fn system_layout_lists_its_fields_in_order() {
    let layout = system_layout();
    assert_eq!(layout.name, "System");
    assert_eq!(describe_all(&layout.fields), vec!["lp1:system_id", "lp1:description"]);
}

#[test]
fn conversion_graph_layout_lists_its_fields_in_order() {
    let layout = conversion_graph_layout();
    assert_eq!(layout.name, "ConversionGraph");
    assert_eq!(describe_all(&layout.fields), vec!["lp1:graph", "f64:rate", "i64:rate_since"]);
}

#[test]
fn all_layouts_are_the_five_of_the_catalog() {
    let names: Vec<&str> = all_layouts().iter().map(|layout| layout.name).collect();
    assert_eq!(names, vec!["Account", "Transaction", "Entry", "System", "ConversionGraph"]);
}

#[test]
fn account_types_have_the_codes_zero_to_four() {
    assert_eq!(account_type_to_u8(&AccountType::Asset), Some(0));
    assert_eq!(account_type_to_u8(&AccountType::Liability), Some(1));
    assert_eq!(account_type_to_u8(&AccountType::Equity), Some(2));
    assert_eq!(account_type_to_u8(&AccountType::Revenue), Some(3));
    assert_eq!(account_type_to_u8(&AccountType::Expense), Some(4));
    assert_eq!(account_type_from_u8(0), Some(AccountType::Asset));
    assert_eq!(account_type_from_u8(1), Some(AccountType::Liability));
    assert_eq!(account_type_from_u8(2), Some(AccountType::Equity));
    assert_eq!(account_type_from_u8(3), Some(AccountType::Revenue));
    assert_eq!(account_type_from_u8(4), Some(AccountType::Expense));
}

#[test]
fn bytes_from_five_on_name_no_account_type() {
    assert_eq!(account_type_from_u8(5), None);
    assert_eq!(account_type_from_u8(255), None);
}
