//! The binary form of accounts.

use vstd::prelude::*;
use vstd::utf8::encode_utf8;
use crate::error::{Error, Invalid};
use crate::model::{Account, AccountType, AccountView};
use crate::storage::binary::{
    account_type_code, account_type_from_u8, account_type_of_code, account_type_to_u8,
    decode_fields, encode_fields, field_extent, lemma_account_type_codes, lemma_decode_error,
    lemma_decode_step, lemma_encode_error, lemma_encode_step, lemma_field_names_differ,
    lemma_fields_read_back, lemma_lp_extent, reads_back, skip_fields, writer_keeps_extent,
    FromBinary, ToBinary, LIVE,
};
use crate::storage::fields::{
    i64_bits, i64_from_bits, i64_of_bits, lemma_i64_roundtrip, lemma_lp_roundtrip,
    lemma_text_roundtrip, lp_decode, lp_encode, read_length_prefixed_string, read_number,
    read_u8, read_uuid, str_eq, take_bytes, text_of, write_i64, write_length_prefixed_field,
    write_uuid,
};
use crate::storage::layout::{account_fields, BinaryField, BinaryLayout, LengthType};
use crate::storage::wire::{
    le_bytes, le_value, lemma_le_bytes_len, lemma_le_roundtrip, lemma_pow256_values,
};
use crate::util::uuid::{lemma_uuid_bytes_roundtrip, Uuid};

verus! {

/// The bytes of one field of an account.
pub open spec fn account_field_bytes(v: AccountView, field: BinaryField) -> Result<Seq<u8>, Error> {
    match field {
        BinaryField::Uuid(name) => {
            if name@ == "id"@ {
                Ok(v.id.spec_bytes())
            } else {
                Err(Error::InvalidData(Invalid::UnexpectedField))
            }
        },
        BinaryField::U8(name) => {
            if name@ == "account_type"@ {
                Ok(seq![account_type_code(v.account_type)])
            } else {
                Err(Error::InvalidData(Invalid::UnexpectedField))
            }
        },
        BinaryField::I64(name) => {
            if name@ == "created_at"@ {
                Ok(le_bytes(i64_bits(v.created_at), 8))
            } else {
                Err(Error::InvalidData(Invalid::UnexpectedField))
            }
        },
        BinaryField::LengthPrefixed { length_type, name } => {
            if name@ == "name"@ {
                lp_encode(encode_utf8(v.name), length_type)
            } else if name@ == "system_id"@ {
                lp_encode(encode_utf8(v.system_id), length_type)
            } else {
                Err(Error::InvalidData(Invalid::UnexpectedField))
            }
        },
        _ => Err(Error::InvalidData(Invalid::UnexpectedField)),
    }
}

pub open spec fn account_writer(v: AccountView) -> spec_fn(BinaryField) -> Result<Seq<u8>, Error> {
    |field: BinaryField| account_field_bytes(v, field)
}

/// An account before any field was read.
pub open spec fn account_blank() -> AccountView {
    AccountView {
        id: Uuid { value: 0 },
        name: Seq::empty(),
        account_type: AccountType::Asset,
        created_at: 0,
        system_id: Seq::empty(),
    }
}

/// Reads one field at the head of the input into an account.
pub open spec fn account_decode_field(acc: AccountView, field: BinaryField, input: Seq<u8>) -> Result<
    (AccountView, nat),
    Error,
> {
    match field {
        BinaryField::Uuid(name) => {
            if name@ == "id"@ {
                match take_bytes(input, 16) {
                    Err(e) => Err(e),
                    Ok(bytes) => Ok((AccountView { id: Uuid::spec_from_bytes(bytes), ..acc }, 16)),
                }
            } else {
                Err(Error::InvalidData(Invalid::UnexpectedField))
            }
        },
        BinaryField::U8(name) => {
            if name@ == "account_type"@ {
                match take_bytes(input, 1) {
                    Err(e) => Err(e),
                    Ok(bytes) => match account_type_of_code(bytes[0]) {
                        None => Err(Error::InvalidData(Invalid::UnknownAccountType)),
                        Some(account_type) => Ok((AccountView { account_type, ..acc }, 1)),
                    },
                }
            } else {
                Err(Error::InvalidData(Invalid::UnexpectedField))
            }
        },
        BinaryField::I64(name) => {
            if name@ == "created_at"@ {
                match take_bytes(input, 8) {
                    Err(e) => Err(e),
                    Ok(bytes) => Ok(
                        (AccountView { created_at: i64_of_bits(le_value(bytes)), ..acc }, 8),
                    ),
                }
            } else {
                Err(Error::InvalidData(Invalid::UnexpectedField))
            }
        },
        BinaryField::LengthPrefixed { length_type, name } => {
            if name@ == "name"@ || name@ == "system_id"@ {
                match lp_decode(input, length_type) {
                    Err(e) => Err(e),
                    Ok((payload, used)) => {
                        if name@ == "name"@ {
                            Ok((AccountView { name: text_of(payload), ..acc }, used))
                        } else {
                            Ok((AccountView { system_id: text_of(payload), ..acc }, used))
                        }
                    },
                }
            } else {
                Err(Error::InvalidData(Invalid::UnexpectedField))
            }
        },
        _ => Err(Error::InvalidData(Invalid::UnexpectedField)),
    }
}

pub open spec fn account_reader() -> spec_fn(AccountView, BinaryField, Seq<u8>) -> Result<
    (AccountView, nat),
    Error,
> {
    |acc: AccountView, field: BinaryField, input: Seq<u8>| account_decode_field(acc, field, input)
}

impl ToBinary for Account {
    open spec fn encoded(v: AccountView, fields: Seq<BinaryField>) -> Result<Seq<u8>, Error> {
        encode_fields(account_writer(v), fields)
    }

    fn to_binary(&self, writer: &mut Vec<u8>, layout: &BinaryLayout) -> (r: Result<(), Error>) {
        let mut buf: Vec<u8> = Vec::new();
        buf.push(LIVE);
        let ghost mut done: Seq<u8> = Seq::empty();
        let mut i: usize = 0;
        while i < layout.fields.len()
            invariant
                i <= layout.fields@.len(),
                buf@ == seq![LIVE] + done,
                encode_fields(account_writer(self@), layout.fields@.take(i as int)) == Ok::<
                    Seq<u8>,
                    Error,
                >(done),
            decreases layout.fields@.len() - i,
        {
            let field = layout.fields[i];
            proof {
                lemma_encode_step(account_writer(self@), layout.fields@, i as int);
            }
            let step: Result<(), Error> = match field {
                BinaryField::Uuid(name) => {
                    if str_eq(name, "id") {
                        write_uuid(&mut buf, &self.id);
                        Ok(())
                    } else {
                        Err(Error::InvalidData(Invalid::UnexpectedField))
                    }
                },
                BinaryField::U8(name) => {
                    if str_eq(name, "account_type") {
                        match account_type_to_u8(&self.account_type) {
                            Some(code) => {
                                buf.push(code);
                                Ok(())
                            },
                            None => Err(Error::InvalidData(Invalid::UnknownAccountType)),
                        }
                    } else {
                        Err(Error::InvalidData(Invalid::UnexpectedField))
                    }
                },
                BinaryField::I64(name) => {
                    if str_eq(name, "created_at") {
                        write_i64(&mut buf, self.created_at);
                        Ok(())
                    } else {
                        Err(Error::InvalidData(Invalid::UnexpectedField))
                    }
                },
                BinaryField::LengthPrefixed { length_type, name } => {
                    if str_eq(name, "name") {
                        write_length_prefixed_field(
                            &mut buf,
                            self.name.as_str().as_bytes(),
                            &length_type,
                        )
                    } else if str_eq(name, "system_id") {
                        write_length_prefixed_field(
                            &mut buf,
                            self.system_id.as_str().as_bytes(),
                            &length_type,
                        )
                    } else {
                        Err(Error::InvalidData(Invalid::UnexpectedField))
                    }
                },
                _ => Err(Error::InvalidData(Invalid::UnexpectedField)),
            };
            match step {
                Err(e) => {
                    proof {
                        lemma_encode_error(account_writer(self@), layout.fields@, i + 1);
                    }
                    return Err(e);
                },
                Ok(()) => {},
            }
            proof {
                let bytes = account_field_bytes(self@, field)->Ok_0;
                assert(buf@ =~= seq![LIVE] + (done + bytes));
                done = done + bytes;
            }
            i = i + 1;
        }
        proof {
            assert(layout.fields@.take(i as int) =~= layout.fields@);
        }
        writer.extend_from_slice(buf.as_slice());
        proof {
            assert(writer@ =~= old(writer)@ + seq![LIVE] + done);
        }
        Ok(())
    }
}

impl FromBinary for Account {
    open spec fn decoded(input: Seq<u8>, fields: Seq<BinaryField>) -> Result<(AccountView, nat), Error> {
        decode_fields(account_blank(), account_reader(), input, fields)
    }

    fn from_binary(data: &[u8], pos: usize, layout: &BinaryLayout) -> (r: Result<(Account, usize), Error>) {
        let mut id = Uuid::nil();
        let mut name = String::new();
        let mut account_type = AccountType::Asset;
        let mut created_at: i64 = 0;
        let mut system_id = String::new();
        let ghost input = data@.skip(pos as int);
        let total: usize = data.len();
        let mut cursor: usize = pos;
        let mut i: usize = 0;
        while i < layout.fields.len()
            invariant
                i <= layout.fields@.len(),
                pos <= cursor <= data@.len() == total,
                input == data@.skip(pos as int),
                decode_fields(account_blank(), account_reader(), input, layout.fields@.take(i as int))
                    == Ok::<(AccountView, nat), Error>(
                    (
                        AccountView {
                            id,
                            name: name@,
                            account_type,
                            created_at,
                            system_id: system_id@,
                        },
                        (cursor - pos) as nat,
                    ),
                ),
            decreases layout.fields@.len() - i,
        {
            let field = layout.fields[i];
            proof {
                lemma_decode_step(account_blank(), account_reader(), input, layout.fields@, i as int);
                assert(input.skip(cursor - pos) =~= data@.skip(cursor as int));
            }
            let step: Result<(), Error> = match field {
                BinaryField::Uuid(field_name) => {
                    if str_eq(field_name, "id") {
                        match read_uuid(data, cursor) {
                            Err(e) => Err(e),
                            Ok(value) => {
                                id = value;
                                cursor = cursor + 16;
                                Ok(())
                            },
                        }
                    } else {
                        Err(Error::InvalidData(Invalid::UnexpectedField))
                    }
                },
                BinaryField::U8(field_name) => {
                    if str_eq(field_name, "account_type") {
                        match read_u8(data, cursor) {
                            Err(e) => Err(e),
                            Ok(byte) => match account_type_from_u8(byte) {
                                None => Err(Error::InvalidData(Invalid::UnknownAccountType)),
                                Some(value) => {
                                    account_type = value;
                                    cursor = cursor + 1;
                                    Ok(())
                                },
                            },
                        }
                    } else {
                        Err(Error::InvalidData(Invalid::UnexpectedField))
                    }
                },
                BinaryField::I64(field_name) => {
                    if str_eq(field_name, "created_at") {
                        match read_number(data, cursor, 8) {
                            Err(e) => Err(e),
                            Ok(bits) => {
                                created_at = i64_from_bits(bits);
                                cursor = cursor + 8;
                                Ok(())
                            },
                        }
                    } else {
                        Err(Error::InvalidData(Invalid::UnexpectedField))
                    }
                },
                BinaryField::LengthPrefixed { length_type, name: field_name } => {
                    let which: u8 = if str_eq(field_name, "name") {
                        1
                    } else if str_eq(field_name, "system_id") {
                        2
                    } else {
                        0
                    };
                    if which == 0 {
                        Err(Error::InvalidData(Invalid::UnexpectedField))
                    } else {
                        match read_length_prefixed_string(data, cursor, &length_type) {
                            Err(e) => Err(e),
                            Ok((text, end)) => {
                                if which == 1 {
                                    name = text;
                                } else {
                                    system_id = text;
                                }
                                cursor = end;
                                Ok(())
                            },
                        }
                    }
                },
                _ => Err(Error::InvalidData(Invalid::UnexpectedField)),
            };
            match step {
                Err(e) => {
                    proof {
                        lemma_decode_error(
                            account_blank(),
                            account_reader(),
                            input,
                            layout.fields@,
                            i + 1,
                        );
                    }
                    return Err(e);
                },
                Ok(()) => {},
            }
            i = i + 1;
        }
        proof {
            assert(layout.fields@.take(i as int) =~= layout.fields@);
        }
        Ok((Account { id, name, account_type, created_at, system_id }, cursor))
    }

    fn skip_bytes(data: &[u8], pos: usize, layout: &BinaryLayout) -> (r: Result<usize, Error>) {
        skip_fields(data, pos, layout)
    }
}

/// Every field of an account occupies what was written of it.
pub proof fn lemma_account_writer_keeps_extent(v: AccountView)
    ensures
        writer_keeps_extent(account_writer(v)),
{
    let w = account_writer(v);
    assert forall|field: BinaryField, tail: Seq<u8>| w(field) is Ok implies #[trigger] field_extent(
        field,
        w(field)->Ok_0 + tail,
    ) == Ok::<nat, Error>(w(field)->Ok_0.len()) by {
        lemma_uuid_bytes_roundtrip(v.id);
        lemma_le_bytes_len(i64_bits(v.created_at), 8);
        match field {
            BinaryField::LengthPrefixed { length_type, name } => {
                if name@ == "name"@ {
                    lemma_lp_extent(encode_utf8(v.name), length_type, name, tail);
                } else {
                    lemma_lp_extent(encode_utf8(v.system_id), length_type, name, tail);
                }
            },
            _ => {},
        }
    }
}

/// An account written in the catalog's layout and read back, whatever
/// follows it, is the same account, and the reading stops where the writing
/// did.
pub proof fn lemma_account_roundtrip(v: AccountView, rest: Seq<u8>)
    requires
        Account::encoded(v, account_fields()) is Ok,
    ensures
        Account::decoded(Account::encoded(v, account_fields())->Ok_0 + rest, account_fields())
            == Ok::<(AccountView, nat), Error>(
            (v, Account::encoded(v, account_fields())->Ok_0.len()),
        ),
{
    let fields = account_fields();
    let w = account_writer(v);
    let r = account_reader();
    let blank = account_blank();
    let a0 = AccountView { id: v.id, ..blank };
    let a1 = AccountView { name: v.name, ..a0 };
    let a2 = AccountView { account_type: v.account_type, ..a1 };
    let a3 = AccountView { created_at: v.created_at, ..a2 };
    let stages = seq![blank, a0, a1, a2, a3, v];
    assert(w(fields[1]) is Ok && w(fields[4]) is Ok) by {
        assert(fields.take(0) =~= Seq::<BinaryField>::empty());
        lemma_encode_step(w, fields, 0);
        lemma_encode_step(w, fields, 1);
        lemma_encode_step(w, fields, 2);
        lemma_encode_step(w, fields, 3);
        lemma_encode_step(w, fields, 4);
        assert(fields.take(5) =~= fields);
    }
    assert(reads_back(r, w, fields[0], blank, a0)) by {
        let bytes = v.id.spec_bytes();
        lemma_uuid_bytes_roundtrip(v.id);
        assert forall|tail: Seq<u8>| #[trigger]
            r(blank, fields[0], w(fields[0])->Ok_0 + tail) == Ok::<(AccountView, nat), Error>(
                (a0, w(fields[0])->Ok_0.len()),
            ) by {
            assert((bytes + tail).take(16) =~= bytes);
        }
    }
    assert(reads_back(r, w, fields[1], a0, a1)) by {
        lemma_field_names_differ();
        lemma_text_roundtrip(v.name);
        assert forall|tail: Seq<u8>| #[trigger]
            r(a0, fields[1], w(fields[1])->Ok_0 + tail) == Ok::<(AccountView, nat), Error>(
                (a1, w(fields[1])->Ok_0.len()),
            ) by {
            lemma_lp_roundtrip(encode_utf8(v.name), LengthType::U8, tail);
        }
    }
    assert(reads_back(r, w, fields[2], a1, a2)) by {
        let bytes = seq![account_type_code(v.account_type)];
        lemma_account_type_codes(v.account_type, 0);
        assert forall|tail: Seq<u8>| #[trigger]
            r(a1, fields[2], w(fields[2])->Ok_0 + tail) == Ok::<(AccountView, nat), Error>(
                (a2, w(fields[2])->Ok_0.len()),
            ) by {
            assert((bytes + tail).take(1) =~= bytes);
        }
    }
    assert(reads_back(r, w, fields[3], a2, a3)) by {
        let bytes = le_bytes(i64_bits(v.created_at), 8);
        lemma_le_bytes_len(i64_bits(v.created_at), 8);
        lemma_pow256_values();
        lemma_i64_roundtrip(v.created_at);
        lemma_le_roundtrip(i64_bits(v.created_at), 8);
        assert forall|tail: Seq<u8>| #[trigger]
            r(a2, fields[3], w(fields[3])->Ok_0 + tail) == Ok::<(AccountView, nat), Error>(
                (a3, w(fields[3])->Ok_0.len()),
            ) by {
            assert((bytes + tail).take(8) =~= bytes);
        }
    }
    assert(reads_back(r, w, fields[4], a3, v)) by {
        lemma_field_names_differ();
        lemma_text_roundtrip(v.system_id);
        assert forall|tail: Seq<u8>| #[trigger]
            r(a3, fields[4], w(fields[4])->Ok_0 + tail) == Ok::<(AccountView, nat), Error>(
                (v, w(fields[4])->Ok_0.len()),
            ) by {
            lemma_lp_roundtrip(encode_utf8(v.system_id), LengthType::U8, tail);
        }
    }
    lemma_fields_read_back(r, w, fields, stages, rest);
}

} // verus!
