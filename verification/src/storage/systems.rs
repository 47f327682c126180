//! The binary form of systems.

use vstd::prelude::*;
use vstd::utf8::encode_utf8;
use crate::error::{Error, Invalid};
use crate::model::{System, SystemView};
use crate::storage::binary::{
    decode_fields, encode_fields, field_extent, lemma_decode_error, lemma_decode_step,
    lemma_encode_error, lemma_encode_step, lemma_field_names_differ, lemma_lp_extent, skip_fields,
    writer_keeps_extent, FromBinary, ToBinary, LIVE,
};
use crate::storage::fields::{
    lemma_lp_roundtrip, lemma_text_roundtrip, lp_decode, lp_encode, read_length_prefixed_string,
    str_eq, text_of, write_length_prefixed_field,
};
use crate::storage::layout::{system_fields, BinaryField, BinaryLayout};

verus! {

/// The bytes of one field of a system.
pub open spec fn system_field_bytes(v: SystemView, field: BinaryField) -> Result<Seq<u8>, Error> {
    match field {
        BinaryField::LengthPrefixed { length_type, name } => {
            if name@ == "system_id"@ {
                lp_encode(encode_utf8(v.id), length_type)
            } else if name@ == "description"@ {
                lp_encode(encode_utf8(v.description), length_type)
            } else {
                Err(Error::InvalidData(Invalid::UnexpectedField))
            }
        },
        _ => Err(Error::InvalidData(Invalid::UnexpectedField)),
    }
}

pub open spec fn system_writer(v: SystemView) -> spec_fn(BinaryField) -> Result<Seq<u8>, Error> {
    |field: BinaryField| system_field_bytes(v, field)
}

/// A system before any field was read.
pub open spec fn system_blank() -> SystemView {
    SystemView { id: Seq::empty(), description: Seq::empty() }
}

/// Reads one field at the head of the input into a system.
pub open spec fn system_decode_field(acc: SystemView, field: BinaryField, input: Seq<u8>) -> Result<
    (SystemView, nat),
    Error,
> {
    match field {
        BinaryField::LengthPrefixed { length_type, name } => {
            if name@ == "system_id"@ || name@ == "description"@ {
                match lp_decode(input, length_type) {
                    Err(e) => Err(e),
                    Ok((payload, used)) => {
                        if name@ == "system_id"@ {
                            Ok((SystemView { id: text_of(payload), ..acc }, used))
                        } else {
                            Ok((SystemView { description: text_of(payload), ..acc }, used))
                        }
                    },
                }
            } else {
                Err(Error::InvalidData(Invalid::UnexpectedField))
            }
        },
        _ => Err(Error::InvalidData(Invalid::UnexpectedField)),
    }
}

pub open spec fn system_reader() -> spec_fn(SystemView, BinaryField, Seq<u8>) -> Result<
    (SystemView, nat),
    Error,
> {
    |acc: SystemView, field: BinaryField, input: Seq<u8>| system_decode_field(acc, field, input)
}

impl ToBinary for System {
    open spec fn encoded(v: SystemView, fields: Seq<BinaryField>) -> Result<Seq<u8>, Error> {
        encode_fields(system_writer(v), fields)
    }

    fn to_binary(&self, writer: &mut Vec<u8>, layout: &BinaryLayout) -> (r: Result<(), Error>) {
        let mut buf: Vec<u8> = Vec::new();
        buf.push(LIVE);
        let ghost mut done: Seq<u8> = Seq::empty();
        let mut i: usize = 0;
        while i < layout.fields.len()
            invariant
                i <= layout.fields@.len(),
                buf@ == seq![LIVE] + done,
                encode_fields(system_writer(self@), layout.fields@.take(i as int)) == Ok::<
                    Seq<u8>,
                    Error,
                >(done),
            decreases layout.fields@.len() - i,
        {
            let field = layout.fields[i];
            proof {
                lemma_encode_step(system_writer(self@), layout.fields@, i as int);
            }
            let step: Result<(), Error> = match field {
                BinaryField::LengthPrefixed { length_type, name } => {
                    if str_eq(name, "system_id") {
                        write_length_prefixed_field(&mut buf, self.id.as_str().as_bytes(), &length_type)
                    } else if str_eq(name, "description") {
                        write_length_prefixed_field(
                            &mut buf,
                            self.description.as_str().as_bytes(),
                            &length_type,
                        )
                    } else {
                        Err(Error::InvalidData(Invalid::UnexpectedField))
                    }
                },
                _ => Err(Error::InvalidData(Invalid::UnexpectedField)),
            };
            match step {
                Err(e) => {
                    proof {
                        lemma_encode_error(system_writer(self@), layout.fields@, i + 1);
                    }
                    return Err(e);
                },
                Ok(()) => {},
            }
            proof {
                let bytes = system_field_bytes(self@, field)->Ok_0;
                assert(buf@ =~= seq![LIVE] + (done + bytes));
                done = done + bytes;
            }
            i = i + 1;
        }
        proof {
            assert(layout.fields@.take(i as int) =~= layout.fields@);
        }
        writer.extend_from_slice(buf.as_slice());
        proof {
            assert(writer@ =~= old(writer)@ + seq![LIVE] + done);
        }
        Ok(())
    }
}

impl FromBinary for System {
    open spec fn decoded(input: Seq<u8>, fields: Seq<BinaryField>) -> Result<(SystemView, nat), Error> {
        decode_fields(system_blank(), system_reader(), input, fields)
    }

    fn from_binary(data: &[u8], pos: usize, layout: &BinaryLayout) -> (r: Result<(System, usize), Error>) {
        let mut id = String::new();
        let mut description = String::new();
        let ghost input = data@.skip(pos as int);
        let total: usize = data.len();
        let mut cursor: usize = pos;
        let mut i: usize = 0;
        while i < layout.fields.len()
            invariant
                i <= layout.fields@.len(),
                pos <= cursor <= data@.len() == total,
                input == data@.skip(pos as int),
                decode_fields(system_blank(), system_reader(), input, layout.fields@.take(i as int))
                    == Ok::<(SystemView, nat), Error>(
                    (SystemView { id: id@, description: description@ }, (cursor - pos) as nat),
                ),
            decreases layout.fields@.len() - i,
        {
            let field = layout.fields[i];
            proof {
                lemma_decode_step(system_blank(), system_reader(), input, layout.fields@, i as int);
                assert(input.skip(cursor - pos) =~= data@.skip(cursor as int));
            }
            let step: Result<(), Error> = match field {
                BinaryField::LengthPrefixed { length_type, name } => {
                    let which: u8 = if str_eq(name, "system_id") {
                        1
                    } else if str_eq(name, "description") {
                        2
                    } else {
                        0
                    };
                    if which == 0 {
                        Err(Error::InvalidData(Invalid::UnexpectedField))
                    } else {
                        match read_length_prefixed_string(data, cursor, &length_type) {
                            Err(e) => Err(e),
                            Ok((text, end)) => {
                                if which == 1 {
                                    id = text;
                                } else {
                                    description = text;
                                }
                                cursor = end;
                                Ok(())
                            },
                        }
                    }
                },
                _ => Err(Error::InvalidData(Invalid::UnexpectedField)),
            };
            match step {
                Err(e) => {
                    proof {
                        lemma_decode_error(
                            system_blank(),
                            system_reader(),
                            input,
                            layout.fields@,
                            i + 1,
                        );
                    }
                    return Err(e);
                },
                Ok(()) => {},
            }
            i = i + 1;
        }
        proof {
            assert(layout.fields@.take(i as int) =~= layout.fields@);
        }
        Ok((System { id, description }, cursor))
    }

    fn skip_bytes(data: &[u8], pos: usize, layout: &BinaryLayout) -> (r: Result<usize, Error>) {
        skip_fields(data, pos, layout)
    }
}

/// Every field of a system occupies what was written of it.
pub proof fn lemma_system_writer_keeps_extent(v: SystemView)
    ensures
        writer_keeps_extent(system_writer(v)),
{
    let w = system_writer(v);
    assert forall|field: BinaryField, tail: Seq<u8>| w(field) is Ok implies #[trigger] field_extent(
        field,
        w(field)->Ok_0 + tail,
    ) == Ok::<nat, Error>(w(field)->Ok_0.len()) by {
        match field {
            BinaryField::LengthPrefixed { length_type, name } => {
                if name@ == "system_id"@ {
                    lemma_lp_extent(encode_utf8(v.id), length_type, name, tail);
                } else {
                    lemma_lp_extent(encode_utf8(v.description), length_type, name, tail);
                }
            },
            _ => {},
        }
    }
}

/// A system written in the catalog's layout and read back, whatever follows
/// it, is the same system, and the reading stops where the writing did.
pub proof fn lemma_system_roundtrip(v: SystemView, rest: Seq<u8>)
    requires
        System::encoded(v, system_fields()) is Ok,
    ensures
        System::decoded(System::encoded(v, system_fields())->Ok_0 + rest, system_fields()) == Ok::<
            (SystemView, nat),
            Error,
        >((v, System::encoded(v, system_fields())->Ok_0.len())),
{
    lemma_field_names_differ();
    let fields = system_fields();
    let w = system_writer(v);
    assert(fields.take(0) =~= Seq::<BinaryField>::empty());
    lemma_encode_step(w, fields, 0);
    lemma_encode_step(w, fields, 1);
    assert(fields.take(2) =~= fields);
    let b0 = w(fields[0])->Ok_0;
    let b1 = w(fields[1])->Ok_0;
    let e1 = Seq::<u8>::empty() + b0 + b1;
    assert(encode_fields(w, fields) == Ok::<Seq<u8>, Error>(e1));

    let input = e1 + rest;
    let r = system_reader();
    let blank = system_blank();
    lemma_decode_step(blank, r, input, fields, 0);
    lemma_decode_step(blank, r, input, fields, 1);
    let width = crate::storage::layout::LengthType::U8;
    lemma_lp_roundtrip(encode_utf8(v.id), width, b1 + rest);
    lemma_lp_roundtrip(encode_utf8(v.description), width, rest);
    lemma_text_roundtrip(v.id);
    lemma_text_roundtrip(v.description);
    assert(input.skip(0) =~= b0 + (b1 + rest));
    assert(input.skip(b0.len() as int) =~= b1 + rest);
}

} // verus!
