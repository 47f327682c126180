//! The binary form of entries.

use vstd::prelude::*;
use crate::error::{Error, Invalid};
use crate::model::{Double, Entry};
use crate::storage::binary::{
    decode_fields, encode_fields, lemma_decode_error, lemma_decode_step, lemma_encode_error,
    lemma_encode_step, lemma_field_names_differ, skip_fields, field_extent, writer_keeps_extent,
    FromBinary, ToBinary, LIVE,
};
use crate::storage::fields::{read_number, read_uuid, str_eq, take_bytes, write_u64, write_uuid};
use crate::storage::layout::{entry_fields, BinaryField, BinaryLayout};
use crate::storage::wire::{
    le_bytes, le_value, lemma_le_bytes_len, lemma_le_roundtrip, lemma_pow256_values,
};
use crate::util::uuid::{lemma_uuid_bytes_roundtrip, Uuid};

verus! {

/// The bytes of one field of an entry.
pub open spec fn entry_field_bytes(v: Entry, field: BinaryField) -> Result<Seq<u8>, Error> {
    match field {
        BinaryField::Uuid(name) => {
            if name@ == "id"@ {
                Ok(v.id.spec_bytes())
            } else if name@ == "transaction_id"@ {
                Ok(v.transaction_id.spec_bytes())
            } else if name@ == "account_id"@ {
                Ok(v.account_id.spec_bytes())
            } else {
                Err(Error::InvalidData(Invalid::UnexpectedField))
            }
        },
        BinaryField::F64(name) => {
            if name@ == "amount"@ {
                Ok(le_bytes(v.amount.bits as nat, 8))
            } else {
                Err(Error::InvalidData(Invalid::UnexpectedField))
            }
        },
        _ => Err(Error::InvalidData(Invalid::UnexpectedField)),
    }
}

pub open spec fn entry_writer(v: Entry) -> spec_fn(BinaryField) -> Result<Seq<u8>, Error> {
    |field: BinaryField| entry_field_bytes(v, field)
}

/// An entry before any field was read.
pub open spec fn entry_blank() -> Entry {
    Entry {
        id: Uuid { value: 0 },
        transaction_id: Uuid { value: 0 },
        account_id: Uuid { value: 0 },
        amount: Double { bits: 0 },
    }
}

/// Reads one field at the head of the input into an entry.
pub open spec fn entry_decode_field(acc: Entry, field: BinaryField, input: Seq<u8>) -> Result<
    (Entry, nat),
    Error,
> {
    match field {
        BinaryField::Uuid(name) => {
            if name@ == "id"@ || name@ == "transaction_id"@ || name@ == "account_id"@ {
                match take_bytes(input, 16) {
                    Err(e) => Err(e),
                    Ok(bytes) => {
                        let id = Uuid::spec_from_bytes(bytes);
                        if name@ == "id"@ {
                            Ok((Entry { id, ..acc }, 16))
                        } else if name@ == "transaction_id"@ {
                            Ok((Entry { transaction_id: id, ..acc }, 16))
                        } else {
                            Ok((Entry { account_id: id, ..acc }, 16))
                        }
                    },
                }
            } else {
                Err(Error::InvalidData(Invalid::UnexpectedField))
            }
        },
        BinaryField::F64(name) => {
            if name@ == "amount"@ {
                match take_bytes(input, 8) {
                    Err(e) => Err(e),
                    Ok(bytes) => Ok(
                        (Entry { amount: Double { bits: le_value(bytes) as u64 }, ..acc }, 8),
                    ),
                }
            } else {
                Err(Error::InvalidData(Invalid::UnexpectedField))
            }
        },
        _ => Err(Error::InvalidData(Invalid::UnexpectedField)),
    }
}

pub open spec fn entry_reader() -> spec_fn(Entry, BinaryField, Seq<u8>) -> Result<
    (Entry, nat),
    Error,
> {
    |acc: Entry, field: BinaryField, input: Seq<u8>| entry_decode_field(acc, field, input)
}

impl ToBinary for Entry {
    open spec fn encoded(v: Entry, fields: Seq<BinaryField>) -> Result<Seq<u8>, Error> {
        encode_fields(entry_writer(v), fields)
    }

    fn to_binary(&self, writer: &mut Vec<u8>, layout: &BinaryLayout) -> (r: Result<(), Error>) {
        let mut buf: Vec<u8> = Vec::new();
        buf.push(LIVE);
        let ghost mut done: Seq<u8> = Seq::empty();
        let mut i: usize = 0;
        while i < layout.fields.len()
            invariant
                i <= layout.fields@.len(),
                buf@ == seq![LIVE] + done,
                encode_fields(entry_writer(self@), layout.fields@.take(i as int)) == Ok::<
                    Seq<u8>,
                    Error,
                >(done),
            decreases layout.fields@.len() - i,
        {
            let field = layout.fields[i];
            proof {
                lemma_encode_step(entry_writer(self@), layout.fields@, i as int);
            }
            let known: bool = match field {
                BinaryField::Uuid(name) => {
                    if str_eq(name, "id") {
                        write_uuid(&mut buf, &self.id);
                        true
                    } else if str_eq(name, "transaction_id") {
                        write_uuid(&mut buf, &self.transaction_id);
                        true
                    } else if str_eq(name, "account_id") {
                        write_uuid(&mut buf, &self.account_id);
                        true
                    } else {
                        false
                    }
                },
                BinaryField::F64(name) => {
                    if str_eq(name, "amount") {
                        write_u64(&mut buf, self.amount.bits);
                        true
                    } else {
                        false
                    }
                },
                _ => false,
            };
            if !known {
                proof {
                    lemma_encode_error(entry_writer(self@), layout.fields@, i + 1);
                }
                return Err(Error::InvalidData(Invalid::UnexpectedField));
            }
            proof {
                let bytes = entry_field_bytes(self@, field)->Ok_0;
                assert(buf@ =~= seq![LIVE] + (done + bytes));
                done = done + bytes;
            }
            i = i + 1;
        }
        proof {
            assert(layout.fields@.take(i as int) =~= layout.fields@);
        }
        writer.extend_from_slice(buf.as_slice());
        proof {
            assert(writer@ =~= old(writer)@ + seq![LIVE] + done);
        }
        Ok(())
    }
}

impl FromBinary for Entry {
    open spec fn decoded(input: Seq<u8>, fields: Seq<BinaryField>) -> Result<(Entry, nat), Error> {
        decode_fields(entry_blank(), entry_reader(), input, fields)
    }

    fn from_binary(data: &[u8], pos: usize, layout: &BinaryLayout) -> (r: Result<(Entry, usize), Error>) {
        let mut item = Entry {
            id: Uuid::nil(),
            transaction_id: Uuid::nil(),
            account_id: Uuid::nil(),
            amount: Double { bits: 0 },
        };
        let ghost input = data@.skip(pos as int);
        let total: usize = data.len();
        let mut cursor: usize = pos;
        let mut i: usize = 0;
        while i < layout.fields.len()
            invariant
                i <= layout.fields@.len(),
                pos <= cursor <= data@.len() == total,
                input == data@.skip(pos as int),
                decode_fields(entry_blank(), entry_reader(), input, layout.fields@.take(i as int))
                    == Ok::<(Entry, nat), Error>((item, (cursor - pos) as nat)),
            decreases layout.fields@.len() - i,
        {
            let field = layout.fields[i];
            proof {
                lemma_decode_step(entry_blank(), entry_reader(), input, layout.fields@, i as int);
                assert(input.skip(cursor - pos) =~= data@.skip(cursor as int));
                lemma_pow256_values();
            }
            let step: Result<(), Error> = match field {
                BinaryField::Uuid(name) => {
                    let which: u8 = if str_eq(name, "id") {
                        1
                    } else if str_eq(name, "transaction_id") {
                        2
                    } else if str_eq(name, "account_id") {
                        3
                    } else {
                        0
                    };
                    if which == 0 {
                        Err(Error::InvalidData(Invalid::UnexpectedField))
                    } else {
                        match read_uuid(data, cursor) {
                            Err(e) => Err(e),
                            Ok(id) => {
                                if which == 1 {
                                    item.id = id;
                                } else if which == 2 {
                                    item.transaction_id = id;
                                } else {
                                    item.account_id = id;
                                }
                                cursor = cursor + 16;
                                Ok(())
                            },
                        }
                    }
                },
                BinaryField::F64(name) => {
                    if str_eq(name, "amount") {
                        match read_number(data, cursor, 8) {
                            Err(e) => Err(e),
                            Ok(bits) => {
                                item.amount = Double { bits };
                                cursor = cursor + 8;
                                Ok(())
                            },
                        }
                    } else {
                        Err(Error::InvalidData(Invalid::UnexpectedField))
                    }
                },
                _ => Err(Error::InvalidData(Invalid::UnexpectedField)),
            };
            match step {
                Err(e) => {
                    proof {
                        lemma_decode_error(
                            entry_blank(),
                            entry_reader(),
                            input,
                            layout.fields@,
                            i + 1,
                        );
                    }
                    return Err(e);
                },
                Ok(()) => {},
            }
            i = i + 1;
        }
        proof {
            assert(layout.fields@.take(i as int) =~= layout.fields@);
        }
        Ok((item, cursor))
    }

    fn skip_bytes(data: &[u8], pos: usize, layout: &BinaryLayout) -> (r: Result<usize, Error>) {
        skip_fields(data, pos, layout)
    }
}

/// Every field of an entry occupies what was written of it.
pub proof fn lemma_entry_writer_keeps_extent(v: Entry)
    ensures
        writer_keeps_extent(entry_writer(v)),
{
    let w = entry_writer(v);
    assert forall|field: BinaryField, tail: Seq<u8>| w(field) is Ok implies #[trigger] field_extent(
        field,
        w(field)->Ok_0 + tail,
    ) == Ok::<nat, Error>(w(field)->Ok_0.len()) by {
        lemma_uuid_bytes_roundtrip(v.id);
        lemma_uuid_bytes_roundtrip(v.transaction_id);
        lemma_uuid_bytes_roundtrip(v.account_id);
        lemma_le_bytes_len(v.amount.bits as nat, 8);
    }
}

/// An entry written in the catalog's layout and read back, whatever follows
/// it, is the same entry, and the reading stops where the writing did.
pub proof fn lemma_entry_roundtrip(v: Entry, rest: Seq<u8>)
    ensures
        Entry::encoded(v, entry_fields()) is Ok,
        Entry::encoded(v, entry_fields())->Ok_0.len() == 56,
        Entry::decoded(Entry::encoded(v, entry_fields())->Ok_0 + rest, entry_fields()) == Ok::<
            (Entry, nat),
            Error,
        >((v, 56)),
{
    lemma_field_names_differ();
    let fields = entry_fields();
    let w = entry_writer(v);
    let b0 = v.id.spec_bytes();
    let b1 = v.transaction_id.spec_bytes();
    let b2 = v.account_id.spec_bytes();
    let b3 = le_bytes(v.amount.bits as nat, 8);
    lemma_uuid_bytes_roundtrip(v.id);
    lemma_uuid_bytes_roundtrip(v.transaction_id);
    lemma_uuid_bytes_roundtrip(v.account_id);
    lemma_le_bytes_len(v.amount.bits as nat, 8);
    lemma_pow256_values();
    lemma_le_roundtrip(v.amount.bits as nat, 8);

    assert(fields.take(0) =~= Seq::<BinaryField>::empty());
    lemma_encode_step(w, fields, 0);
    lemma_encode_step(w, fields, 1);
    lemma_encode_step(w, fields, 2);
    lemma_encode_step(w, fields, 3);
    assert(fields.take(4) =~= fields);
    let e0 = Seq::<u8>::empty() + b0;
    let e1 = e0 + b1;
    let e2 = e1 + b2;
    let e3 = e2 + b3;
    assert(encode_fields(w, fields) == Ok::<Seq<u8>, Error>(e3));

    let input = e3 + rest;
    let r = entry_reader();
    let blank = entry_blank();
    lemma_decode_step(blank, r, input, fields, 0);
    lemma_decode_step(blank, r, input, fields, 1);
    lemma_decode_step(blank, r, input, fields, 2);
    lemma_decode_step(blank, r, input, fields, 3);
    assert(input.skip(0).take(16) =~= b0);
    assert(input.skip(16).take(16) =~= b1);
    assert(input.skip(32).take(16) =~= b2);
    assert(input.skip(48).take(8) =~= b3);
}

} // verus!
