//! The layout catalog: for each record family, the ordered list of typed
//! fields that makes up its binary form.

use vstd::prelude::*;

verus! {

/// Width of the length that precedes a variable-size field.
#[derive(Debug, Clone, Copy, PartialEq, Eq, Structural)]
pub enum LengthType {
    U8,
    U16,
    U32,
}

/// One field of a record's binary form, with the name the record knows it by.
#[derive(Debug, Clone, Copy)]
pub enum BinaryField {
    /// Sixteen bytes.
    Uuid(&'static str),
    /// One byte.
    U8(&'static str),
    /// Four bytes, little-endian.
    U32(&'static str),
    /// Eight bytes, little-endian, signed.
    I64(&'static str),
    /// Eight bytes, little-endian: the bit pattern of a double.
    F64(&'static str),
    /// A little-endian length of the given width, then that many raw bytes.
    LengthPrefixed { length_type: LengthType, name: &'static str },
}

/// The binary form of one record family.
#[derive(Debug)]
pub struct BinaryLayout {
    pub name: &'static str,
    pub fields: Vec<BinaryField>,
}

impl LengthType {
    /// Number of bytes the length itself occupies.
    pub open spec fn spec_byte_len(self) -> nat {
        match self {
            LengthType::U8 => 1,
            LengthType::U16 => 2,
            LengthType::U32 => 4,
        }
    }

    /// Number of bytes the length itself occupies.
    pub fn byte_len(&self) -> (n: usize)
        ensures
            n == self.spec_byte_len(),
    {
        match self {
            LengthType::U8 => 1,
            LengthType::U16 => 2,
            LengthType::U32 => 4,
        }
    }
}

pub open spec fn account_fields() -> Seq<BinaryField> {
    seq![
        BinaryField::Uuid("id"),
        BinaryField::LengthPrefixed { length_type: LengthType::U8, name: "name" },
        BinaryField::U8("account_type"),
        BinaryField::I64("created_at"),
        BinaryField::LengthPrefixed { length_type: LengthType::U8, name: "system_id" },
    ]
}

pub open spec fn transaction_fields() -> Seq<BinaryField> {
    seq![
        BinaryField::Uuid("id"),
        BinaryField::LengthPrefixed { length_type: LengthType::U8, name: "description" },
        BinaryField::LengthPrefixed { length_type: LengthType::U32, name: "metadata" },
        BinaryField::I64("timestamp"),
    ]
}

pub open spec fn entry_fields() -> Seq<BinaryField> {
    seq![
        BinaryField::Uuid("id"),
        BinaryField::Uuid("transaction_id"),
        BinaryField::Uuid("account_id"),
        BinaryField::F64("amount"),
    ]
}

pub open spec fn system_fields() -> Seq<BinaryField> {
    seq![
        BinaryField::LengthPrefixed { length_type: LengthType::U8, name: "system_id" },
        BinaryField::LengthPrefixed { length_type: LengthType::U8, name: "description" },
    ]
}

pub open spec fn conversion_graph_fields() -> Seq<BinaryField> {
    seq![
        BinaryField::LengthPrefixed { length_type: LengthType::U8, name: "graph" },
        BinaryField::F64("rate"),
        BinaryField::I64("rate_since"),
    ]
}

pub fn account_layout() -> (layout: BinaryLayout)
    ensures
        layout.name@ == "Account"@,
        layout.fields@ == account_fields(),
{
    let mut fields: Vec<BinaryField> = Vec::new();
    fields.push(BinaryField::Uuid("id"));
    fields.push(BinaryField::LengthPrefixed { length_type: LengthType::U8, name: "name" });
    fields.push(BinaryField::U8("account_type"));
    fields.push(BinaryField::I64("created_at"));
    fields.push(BinaryField::LengthPrefixed { length_type: LengthType::U8, name: "system_id" });
    assert(fields@ =~= account_fields());
    BinaryLayout { name: "Account", fields }
}

pub fn transaction_layout() -> (layout: BinaryLayout)
    ensures
        layout.name@ == "Transaction"@,
        layout.fields@ == transaction_fields(),
{
    let mut fields: Vec<BinaryField> = Vec::new();
    fields.push(BinaryField::Uuid("id"));
    fields.push(BinaryField::LengthPrefixed { length_type: LengthType::U8, name: "description" });
    fields.push(BinaryField::LengthPrefixed { length_type: LengthType::U32, name: "metadata" });
    fields.push(BinaryField::I64("timestamp"));
    assert(fields@ =~= transaction_fields());
    BinaryLayout { name: "Transaction", fields }
}

pub fn entry_layout() -> (layout: BinaryLayout)
    ensures
        layout.name@ == "Entry"@,
        layout.fields@ == entry_fields(),
{
    let mut fields: Vec<BinaryField> = Vec::new();
    fields.push(BinaryField::Uuid("id"));
    fields.push(BinaryField::Uuid("transaction_id"));
    fields.push(BinaryField::Uuid("account_id"));
    fields.push(BinaryField::F64("amount"));
    assert(fields@ =~= entry_fields());
    BinaryLayout { name: "Entry", fields }
}

pub fn system_layout() -> (layout: BinaryLayout)
    ensures
        layout.name@ == "System"@,
        layout.fields@ == system_fields(),
{
    let mut fields: Vec<BinaryField> = Vec::new();
    fields.push(BinaryField::LengthPrefixed { length_type: LengthType::U8, name: "system_id" });
    fields.push(BinaryField::LengthPrefixed { length_type: LengthType::U8, name: "description" });
    assert(fields@ =~= system_fields());
    BinaryLayout { name: "System", fields }
}

pub fn conversion_graph_layout() -> (layout: BinaryLayout)
    ensures
        layout.name@ == "ConversionGraph"@,
        layout.fields@ == conversion_graph_fields(),
{
    let mut fields: Vec<BinaryField> = Vec::new();
    fields.push(BinaryField::LengthPrefixed { length_type: LengthType::U8, name: "graph" });
    fields.push(BinaryField::F64("rate"));
    fields.push(BinaryField::I64("rate_since"));
    assert(fields@ =~= conversion_graph_fields());
    BinaryLayout { name: "ConversionGraph", fields }
}

/// The five layouts, in the order account, transaction, entry, system,
/// conversion graph.
pub fn all_layouts() -> (layouts: Vec<BinaryLayout>)
    ensures
        layouts@.len() == 5,
        layouts@[0].fields@ == account_fields(),
        layouts@[1].fields@ == transaction_fields(),
        layouts@[2].fields@ == entry_fields(),
        layouts@[3].fields@ == system_fields(),
        layouts@[4].fields@ == conversion_graph_fields(),
        layouts@[0].name@ == "Account"@,
        layouts@[1].name@ == "Transaction"@,
        layouts@[2].name@ == "Entry"@,
        layouts@[3].name@ == "System"@,
        layouts@[4].name@ == "ConversionGraph"@,
{
    let mut layouts: Vec<BinaryLayout> = Vec::new();
    layouts.push(account_layout());
    layouts.push(transaction_layout());
    layouts.push(entry_layout());
    layouts.push(system_layout());
    layouts.push(conversion_graph_layout());
    layouts
}

} // verus!
