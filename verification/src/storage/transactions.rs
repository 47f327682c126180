//! The binary form of transactions.

use vstd::prelude::*;
use vstd::utf8::encode_utf8;
use crate::error::{Error, Invalid};
use crate::model::{Transaction, TransactionView};
use crate::platform::{json_is_valid, json_valid};
use crate::storage::binary::{
    decode_fields, encode_fields, field_extent, lemma_decode_error, lemma_decode_step,
    lemma_encode_error, lemma_encode_step, lemma_field_names_differ, lemma_fields_read_back,
    lemma_lp_extent, reads_back, skip_fields, writer_keeps_extent, FromBinary, ToBinary, LIVE,
};
use crate::storage::fields::{
    i64_bits, i64_from_bits, i64_of_bits, lemma_i64_roundtrip, lemma_lp_roundtrip,
    lemma_text_roundtrip, lp_decode, lp_encode, read_length_prefixed_string, read_number,
    read_uuid, str_eq, take_bytes, text_of, write_i64, write_length_prefixed_field, write_uuid,
};
use crate::storage::layout::{transaction_fields, BinaryField, BinaryLayout, LengthType};
use crate::storage::wire::{
    le_bytes, le_value, lemma_le_bytes_len, lemma_le_roundtrip, lemma_pow256_values,
};
use crate::util::uuid::{lemma_uuid_bytes_roundtrip, Uuid};

verus! {

/// The bytes that stand for the metadata: its text, or nothing where there
/// is none.
pub open spec fn metadata_bytes(metadata: Option<Seq<char>>) -> Seq<u8> {
    match metadata {
        Some(text) => encode_utf8(text),
        None => Seq::empty(),
    }
}

/// The metadata that a text stands for: none where the text is empty or is
/// not JSON.
pub open spec fn metadata_of_text(text: Seq<char>) -> Option<Seq<char>> {
    if text.len() == 0 {
        None
    } else if json_valid(text) {
        Some(text)
    } else {
        None
    }
}

/// Whether the metadata, where there is any, is text that reads back as
/// itself: not empty, and JSON.
pub open spec fn metadata_is_storable(metadata: Option<Seq<char>>) -> bool {
    metadata is Some ==> metadata_of_text(metadata->0) == metadata
}

/// The bytes of one field of a transaction.
pub open spec fn transaction_field_bytes(v: TransactionView, field: BinaryField) -> Result<
    Seq<u8>,
    Error,
> {
    match field {
        BinaryField::Uuid(name) => {
            if name@ == "id"@ {
                Ok(v.id.spec_bytes())
            } else {
                Err(Error::InvalidData(Invalid::UnexpectedField))
            }
        },
        BinaryField::I64(name) => {
            if name@ == "timestamp"@ {
                Ok(le_bytes(i64_bits(v.timestamp), 8))
            } else {
                Err(Error::InvalidData(Invalid::UnexpectedField))
            }
        },
        BinaryField::LengthPrefixed { length_type, name } => {
            if name@ == "description"@ {
                lp_encode(encode_utf8(v.description), length_type)
            } else if name@ == "metadata"@ {
                lp_encode(metadata_bytes(v.metadata), length_type)
            } else {
                Err(Error::InvalidData(Invalid::UnexpectedField))
            }
        },
        _ => Err(Error::InvalidData(Invalid::UnexpectedField)),
    }
}

pub open spec fn transaction_writer(v: TransactionView) -> spec_fn(BinaryField) -> Result<
    Seq<u8>,
    Error,
> {
    |field: BinaryField| transaction_field_bytes(v, field)
}

/// A transaction before any field was read.
pub open spec fn transaction_blank() -> TransactionView {
    TransactionView { id: Uuid { value: 0 }, description: Seq::empty(), timestamp: 0, metadata: None }
}

/// Reads one field at the head of the input into a transaction.
pub open spec fn transaction_decode_field(
    acc: TransactionView,
    field: BinaryField,
    input: Seq<u8>,
) -> Result<(TransactionView, nat), Error> {
    match field {
        BinaryField::Uuid(name) => {
            if name@ == "id"@ {
                match take_bytes(input, 16) {
                    Err(e) => Err(e),
                    Ok(bytes) => Ok(
                        (TransactionView { id: Uuid::spec_from_bytes(bytes), ..acc }, 16),
                    ),
                }
            } else {
                Err(Error::InvalidData(Invalid::UnexpectedField))
            }
        },
        BinaryField::I64(name) => {
            if name@ == "timestamp"@ {
                match take_bytes(input, 8) {
                    Err(e) => Err(e),
                    Ok(bytes) => Ok(
                        (TransactionView { timestamp: i64_of_bits(le_value(bytes)), ..acc }, 8),
                    ),
                }
            } else {
                Err(Error::InvalidData(Invalid::UnexpectedField))
            }
        },
        BinaryField::LengthPrefixed { length_type, name } => {
            if name@ == "description"@ || name@ == "metadata"@ {
                match lp_decode(input, length_type) {
                    Err(e) => Err(e),
                    Ok((payload, used)) => {
                        if name@ == "description"@ {
                            Ok((TransactionView { description: text_of(payload), ..acc }, used))
                        } else {
                            Ok(
                                (
                                    TransactionView {
                                        metadata: metadata_of_text(text_of(payload)),
                                        ..acc
                                    },
                                    used,
                                ),
                            )
                        }
                    },
                }
            } else {
                Err(Error::InvalidData(Invalid::UnexpectedField))
            }
        },
        _ => Err(Error::InvalidData(Invalid::UnexpectedField)),
    }
}

pub open spec fn transaction_reader() -> spec_fn(TransactionView, BinaryField, Seq<u8>) -> Result<
    (TransactionView, nat),
    Error,
> {
    |acc: TransactionView, field: BinaryField, input: Seq<u8>|
        transaction_decode_field(acc, field, input)
}

/// The view of an optional text.
pub open spec fn optional_text(text: Option<String>) -> Option<Seq<char>> {
    match text {
        Some(text) => Some(text@),
        None => None,
    }
}

impl ToBinary for Transaction {
    open spec fn encoded(v: TransactionView, fields: Seq<BinaryField>) -> Result<Seq<u8>, Error> {
        encode_fields(transaction_writer(v), fields)
    }

    fn to_binary(&self, writer: &mut Vec<u8>, layout: &BinaryLayout) -> (r: Result<(), Error>) {
        let mut buf: Vec<u8> = Vec::new();
        buf.push(LIVE);
        let ghost mut done: Seq<u8> = Seq::empty();
        let mut i: usize = 0;
        while i < layout.fields.len()
            invariant
                i <= layout.fields@.len(),
                buf@ == seq![LIVE] + done,
                encode_fields(transaction_writer(self@), layout.fields@.take(i as int)) == Ok::<
                    Seq<u8>,
                    Error,
                >(done),
            decreases layout.fields@.len() - i,
        {
            let field = layout.fields[i];
            proof {
                lemma_encode_step(transaction_writer(self@), layout.fields@, i as int);
            }
            let step: Result<(), Error> = match field {
                BinaryField::Uuid(name) => {
                    if str_eq(name, "id") {
                        write_uuid(&mut buf, &self.id);
                        Ok(())
                    } else {
                        Err(Error::InvalidData(Invalid::UnexpectedField))
                    }
                },
                BinaryField::I64(name) => {
                    if str_eq(name, "timestamp") {
                        write_i64(&mut buf, self.timestamp);
                        Ok(())
                    } else {
                        Err(Error::InvalidData(Invalid::UnexpectedField))
                    }
                },
                BinaryField::LengthPrefixed { length_type, name } => {
                    if str_eq(name, "description") {
                        write_length_prefixed_field(
                            &mut buf,
                            self.description.as_str().as_bytes(),
                            &length_type,
                        )
                    } else if str_eq(name, "metadata") {
                        match &self.metadata {
                            Some(text) => write_length_prefixed_field(
                                &mut buf,
                                text.as_str().as_bytes(),
                                &length_type,
                            ),
                            None => {
                                let nothing: Vec<u8> = Vec::new();
                                write_length_prefixed_field(
                                    &mut buf,
                                    nothing.as_slice(),
                                    &length_type,
                                )
                            },
                        }
                    } else {
                        Err(Error::InvalidData(Invalid::UnexpectedField))
                    }
                },
                _ => Err(Error::InvalidData(Invalid::UnexpectedField)),
            };
            match step {
                Err(e) => {
                    proof {
                        lemma_encode_error(transaction_writer(self@), layout.fields@, i + 1);
                    }
                    return Err(e);
                },
                Ok(()) => {},
            }
            proof {
                let bytes = transaction_field_bytes(self@, field)->Ok_0;
                assert(buf@ =~= seq![LIVE] + (done + bytes));
                done = done + bytes;
            }
            i = i + 1;
        }
        proof {
            assert(layout.fields@.take(i as int) =~= layout.fields@);
        }
        writer.extend_from_slice(buf.as_slice());
        proof {
            assert(writer@ =~= old(writer)@ + seq![LIVE] + done);
        }
        Ok(())
    }
}

impl FromBinary for Transaction {
    open spec fn decoded(input: Seq<u8>, fields: Seq<BinaryField>) -> Result<
        (TransactionView, nat),
        Error,
    > {
        decode_fields(transaction_blank(), transaction_reader(), input, fields)
    }

    fn from_binary(data: &[u8], pos: usize, layout: &BinaryLayout) -> (r: Result<
        (Transaction, usize),
        Error,
    >) {
        let mut id = Uuid::nil();
        let mut description = String::new();
        let mut timestamp: i64 = 0;
        let mut metadata: Option<String> = None;
        let ghost input = data@.skip(pos as int);
        let total: usize = data.len();
        let mut cursor: usize = pos;
        let mut i: usize = 0;
        while i < layout.fields.len()
            invariant
                i <= layout.fields@.len(),
                pos <= cursor <= data@.len() == total,
                input == data@.skip(pos as int),
                decode_fields(
                    transaction_blank(),
                    transaction_reader(),
                    input,
                    layout.fields@.take(i as int),
                ) == Ok::<(TransactionView, nat), Error>(
                    (
                        TransactionView {
                            id,
                            description: description@,
                            timestamp,
                            metadata: optional_text(metadata),
                        },
                        (cursor - pos) as nat,
                    ),
                ),
            decreases layout.fields@.len() - i,
        {
            let field = layout.fields[i];
            proof {
                lemma_decode_step(
                    transaction_blank(),
                    transaction_reader(),
                    input,
                    layout.fields@,
                    i as int,
                );
                assert(input.skip(cursor - pos) =~= data@.skip(cursor as int));
            }
            let step: Result<(), Error> = match field {
                BinaryField::Uuid(name) => {
                    if str_eq(name, "id") {
                        match read_uuid(data, cursor) {
                            Err(e) => Err(e),
                            Ok(value) => {
                                id = value;
                                cursor = cursor + 16;
                                Ok(())
                            },
                        }
                    } else {
                        Err(Error::InvalidData(Invalid::UnexpectedField))
                    }
                },
                BinaryField::I64(name) => {
                    if str_eq(name, "timestamp") {
                        match read_number(data, cursor, 8) {
                            Err(e) => Err(e),
                            Ok(bits) => {
                                timestamp = i64_from_bits(bits);
                                cursor = cursor + 8;
                                Ok(())
                            },
                        }
                    } else {
                        Err(Error::InvalidData(Invalid::UnexpectedField))
                    }
                },
                BinaryField::LengthPrefixed { length_type, name } => {
                    let which: u8 = if str_eq(name, "description") {
                        1
                    } else if str_eq(name, "metadata") {
                        2
                    } else {
                        0
                    };
                    if which == 0 {
                        Err(Error::InvalidData(Invalid::UnexpectedField))
                    } else {
                        match read_length_prefixed_string(data, cursor, &length_type) {
                            Err(e) => Err(e),
                            Ok((text, end)) => {
                                if which == 1 {
                                    description = text;
                                } else if text.as_str().is_empty() {
                                    metadata = None;
                                } else if json_is_valid(text.as_str()) {
                                    metadata = Some(text);
                                } else {
                                    metadata = None;
                                }
                                cursor = end;
                                Ok(())
                            },
                        }
                    }
                },
                _ => Err(Error::InvalidData(Invalid::UnexpectedField)),
            };
            match step {
                Err(e) => {
                    proof {
                        lemma_decode_error(
                            transaction_blank(),
                            transaction_reader(),
                            input,
                            layout.fields@,
                            i + 1,
                        );
                    }
                    return Err(e);
                },
                Ok(()) => {},
            }
            i = i + 1;
        }
        proof {
            assert(layout.fields@.take(i as int) =~= layout.fields@);
        }
        Ok((Transaction { id, description, timestamp, metadata }, cursor))
    }

    fn skip_bytes(data: &[u8], pos: usize, layout: &BinaryLayout) -> (r: Result<usize, Error>) {
        skip_fields(data, pos, layout)
    }
}

/// Every field of a transaction occupies what was written of it.
pub proof fn lemma_transaction_writer_keeps_extent(v: TransactionView)
    ensures
        writer_keeps_extent(transaction_writer(v)),
{
    let w = transaction_writer(v);
    assert forall|field: BinaryField, tail: Seq<u8>| w(field) is Ok implies #[trigger] field_extent(
        field,
        w(field)->Ok_0 + tail,
    ) == Ok::<nat, Error>(w(field)->Ok_0.len()) by {
        lemma_uuid_bytes_roundtrip(v.id);
        lemma_le_bytes_len(i64_bits(v.timestamp), 8);
        match field {
            BinaryField::LengthPrefixed { length_type, name } => {
                if name@ == "description"@ {
                    lemma_lp_extent(encode_utf8(v.description), length_type, name, tail);
                } else {
                    lemma_lp_extent(metadata_bytes(v.metadata), length_type, name, tail);
                }
            },
            _ => {},
        }
    }
}

/// A transaction whose metadata is storable, written in the catalog's layout
/// and read back, whatever follows it, is the same transaction, and the
/// reading stops where the writing did.
pub proof fn lemma_transaction_roundtrip(v: TransactionView, rest: Seq<u8>)
    requires
        metadata_is_storable(v.metadata),
        Transaction::encoded(v, transaction_fields()) is Ok,
    ensures
        Transaction::decoded(
            Transaction::encoded(v, transaction_fields())->Ok_0 + rest,
            transaction_fields(),
        ) == Ok::<(TransactionView, nat), Error>(
            (v, Transaction::encoded(v, transaction_fields())->Ok_0.len()),
        ),
{
    let fields = transaction_fields();
    let w = transaction_writer(v);
    let r = transaction_reader();
    let blank = transaction_blank();
    let a0 = TransactionView { id: v.id, ..blank };
    let a1 = TransactionView { description: v.description, ..a0 };
    let a2 = TransactionView { metadata: v.metadata, ..a1 };
    let stages = seq![blank, a0, a1, a2, v];
    assert(w(fields[1]) is Ok && w(fields[2]) is Ok) by {
        assert(fields.take(0) =~= Seq::<BinaryField>::empty());
        lemma_encode_step(w, fields, 0);
        lemma_encode_step(w, fields, 1);
        lemma_encode_step(w, fields, 2);
        lemma_encode_step(w, fields, 3);
        assert(fields.take(4) =~= fields);
    }
    assert(reads_back(r, w, fields[0], blank, a0)) by {
        let bytes = v.id.spec_bytes();
        lemma_uuid_bytes_roundtrip(v.id);
        assert forall|tail: Seq<u8>| #[trigger]
            r(blank, fields[0], w(fields[0])->Ok_0 + tail) == Ok::<(TransactionView, nat), Error>(
                (a0, w(fields[0])->Ok_0.len()),
            ) by {
            assert((bytes + tail).take(16) =~= bytes);
        }
    }
    assert(reads_back(r, w, fields[1], a0, a1)) by {
        lemma_field_names_differ();
        lemma_text_roundtrip(v.description);
        assert forall|tail: Seq<u8>| #[trigger]
            r(a0, fields[1], w(fields[1])->Ok_0 + tail) == Ok::<(TransactionView, nat), Error>(
                (a1, w(fields[1])->Ok_0.len()),
            ) by {
            lemma_lp_roundtrip(encode_utf8(v.description), LengthType::U8, tail);
        }
    }
    assert(reads_back(r, w, fields[2], a1, a2)) by {
        lemma_field_names_differ();
        assert(metadata_of_text(text_of(metadata_bytes(v.metadata))) == v.metadata) by {
            match v.metadata {
                Some(text) => {
                    lemma_text_roundtrip(text);
                },
                None => {
                    lemma_text_roundtrip(Seq::<char>::empty());
                    assert(encode_utf8(Seq::<char>::empty()) =~= Seq::<u8>::empty());
                },
            }
        }
        assert forall|tail: Seq<u8>| #[trigger]
            r(a1, fields[2], w(fields[2])->Ok_0 + tail) == Ok::<(TransactionView, nat), Error>(
                (a2, w(fields[2])->Ok_0.len()),
            ) by {
            lemma_lp_roundtrip(metadata_bytes(v.metadata), LengthType::U32, tail);
        }
    }
    assert(reads_back(r, w, fields[3], a2, v)) by {
        let bytes = le_bytes(i64_bits(v.timestamp), 8);
        lemma_le_bytes_len(i64_bits(v.timestamp), 8);
        lemma_pow256_values();
        lemma_i64_roundtrip(v.timestamp);
        lemma_le_roundtrip(i64_bits(v.timestamp), 8);
        assert forall|tail: Seq<u8>| #[trigger]
            r(a2, fields[3], w(fields[3])->Ok_0 + tail) == Ok::<(TransactionView, nat), Error>(
                (v, w(fields[3])->Ok_0.len()),
            ) by {
            assert((bytes + tail).take(8) =~= bytes);
        }
    }
    lemma_fields_read_back(r, w, fields, stages, rest);
}

} // verus!
