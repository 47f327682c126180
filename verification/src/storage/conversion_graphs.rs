//! The binary form of conversion graphs.
//!
//! The key of a graph is stored behind a one-byte marker that tells an active
//! graph from an archived one; only active graphs are read back as records.

use vstd::prelude::*;
use vstd::slice::{slice_subrange, slice_to_vec};
use vstd::utf8::encode_utf8;
use crate::error::{Error, Invalid};
use crate::model::{ConversionGraph, ConversionGraphView, Double};
use crate::platform::string_from_utf8;
use crate::storage::binary::{
    classify_graph_key, decode_fields, encode_fields, field_extent, graph_key_class,
    lemma_decode_error, lemma_decode_step, lemma_encode_error, lemma_encode_step,
    lemma_fields_read_back, lemma_lp_extent, reads_back, skip_fields, writer_keeps_extent,
    FromBinary, GraphKeyClass, ToBinary, LIVE,
};
use crate::storage::fields::{
    i64_bits, i64_from_bits, i64_of_bits, lemma_i64_roundtrip, lemma_lp_roundtrip,
    lemma_text_roundtrip, lp_decode, lp_encode, read_length_prefixed_bytes, read_number, str_eq,
    take_bytes, text_of, write_i64, write_length_prefixed_field, write_u64,
};
use crate::storage::layout::{conversion_graph_fields, BinaryField, BinaryLayout, LengthType};
use crate::storage::wire::{
    le_bytes, le_value, lemma_le_bytes_len, lemma_le_roundtrip, lemma_pow256_values,
};

verus! {

/// The marker of an active graph: the letter `C`.
pub const ACTIVE_MARKER: u8 = 0x43;

/// The marker of an archived graph: the letter `H`.
pub const HISTORICAL_MARKER: u8 = 0x48;

/// The payload of the key field: the marker of the key's class, then the key.
pub open spec fn marked_key(key: Seq<char>) -> Result<Seq<u8>, Error> {
    match graph_key_class(key) {
        GraphKeyClass::Active => Ok(seq![ACTIVE_MARKER] + encode_utf8(key)),
        GraphKeyClass::Historical => Ok(seq![HISTORICAL_MARKER] + encode_utf8(key)),
        GraphKeyClass::Unknown => Err(Error::InvalidData(Invalid::UnknownGraphKey)),
    }
}

/// The key that a payload holds: the text behind the marker of an active
/// graph. The payload of an archived graph is refused as such, any other as
/// corrupt.
pub open spec fn unmarked_key(payload: Seq<u8>) -> Result<Seq<char>, Error> {
    if payload.len() == 0 {
        Err(Error::CorruptData)
    } else if payload[0] == ACTIVE_MARKER {
        Ok(text_of(payload.skip(1)))
    } else if payload[0] == HISTORICAL_MARKER {
        Err(Error::HistoricalRecord)
    } else {
        Err(Error::CorruptData)
    }
}

/// The bytes of one field of a conversion graph.
pub open spec fn conversion_graph_field_bytes(v: ConversionGraphView, field: BinaryField) -> Result<
    Seq<u8>,
    Error,
> {
    match field {
        BinaryField::LengthPrefixed { length_type, name } => {
            if name@ == "graph"@ {
                match marked_key(v.graph) {
                    Err(e) => Err(e),
                    Ok(payload) => lp_encode(payload, length_type),
                }
            } else {
                Err(Error::InvalidData(Invalid::UnexpectedField))
            }
        },
        BinaryField::F64(name) => {
            if name@ == "rate"@ {
                Ok(le_bytes(v.rate.bits as nat, 8))
            } else {
                Err(Error::InvalidData(Invalid::UnexpectedField))
            }
        },
        BinaryField::I64(name) => {
            if name@ == "rate_since"@ {
                Ok(le_bytes(i64_bits(v.rate_since), 8))
            } else {
                Err(Error::InvalidData(Invalid::UnexpectedField))
            }
        },
        _ => Err(Error::InvalidData(Invalid::UnexpectedField)),
    }
}

pub open spec fn conversion_graph_writer(v: ConversionGraphView) -> spec_fn(BinaryField) -> Result<
    Seq<u8>,
    Error,
> {
    |field: BinaryField| conversion_graph_field_bytes(v, field)
}

/// A conversion graph before any field was read.
pub open spec fn conversion_graph_blank() -> ConversionGraphView {
    ConversionGraphView { graph: Seq::empty(), rate: Double { bits: 0 }, rate_since: 0 }
}

/// Reads one field at the head of the input into a conversion graph.
pub open spec fn conversion_graph_decode_field(
    acc: ConversionGraphView,
    field: BinaryField,
    input: Seq<u8>,
) -> Result<(ConversionGraphView, nat), Error> {
    match field {
        BinaryField::LengthPrefixed { length_type, name } => {
            if name@ == "graph"@ {
                match lp_decode(input, length_type) {
                    Err(e) => Err(e),
                    Ok((payload, used)) => match unmarked_key(payload) {
                        Err(e) => Err(e),
                        Ok(graph) => Ok((ConversionGraphView { graph, ..acc }, used)),
                    },
                }
            } else {
                Err(Error::InvalidData(Invalid::UnexpectedField))
            }
        },
        BinaryField::F64(name) => {
            if name@ == "rate"@ {
                match take_bytes(input, 8) {
                    Err(e) => Err(e),
                    Ok(bytes) => Ok(
                        (
                            ConversionGraphView {
                                rate: Double { bits: le_value(bytes) as u64 },
                                ..acc
                            },
                            8,
                        ),
                    ),
                }
            } else {
                Err(Error::InvalidData(Invalid::UnexpectedField))
            }
        },
        BinaryField::I64(name) => {
            if name@ == "rate_since"@ {
                match take_bytes(input, 8) {
                    Err(e) => Err(e),
                    Ok(bytes) => Ok(
                        (
                            ConversionGraphView {
                                rate_since: i64_of_bits(le_value(bytes)),
                                ..acc
                            },
                            8,
                        ),
                    ),
                }
            } else {
                Err(Error::InvalidData(Invalid::UnexpectedField))
            }
        },
        _ => Err(Error::InvalidData(Invalid::UnexpectedField)),
    }
}

pub open spec fn conversion_graph_reader() -> spec_fn(
    ConversionGraphView,
    BinaryField,
    Seq<u8>,
) -> Result<(ConversionGraphView, nat), Error> {
    |acc: ConversionGraphView, field: BinaryField, input: Seq<u8>|
        conversion_graph_decode_field(acc, field, input)
}

/// Reads the key out of the payload of a key field.
fn read_marked_key(payload: &Vec<u8>) -> (r: Result<String, Error>)
    ensures
        match unmarked_key(payload@) {
            Ok(key) => r is Ok && r->Ok_0@ == key,
            Err(e) => r == Err::<String, Error>(e),
        },
{
    if payload.len() == 0 {
        return Err(Error::CorruptData);
    }
    let marker = payload[0];
    if marker == ACTIVE_MARKER {
        let bytes = slice_to_vec(slice_subrange(payload.as_slice(), 1, payload.len()));
        proof {
            assert(bytes@ =~= payload@.skip(1));
        }
        match string_from_utf8(bytes) {
            Some(text) => Ok(text),
            None => Ok(String::new()),
        }
    } else if marker == HISTORICAL_MARKER {
        Err(Error::HistoricalRecord)
    } else {
        Err(Error::CorruptData)
    }
}

/// Appends the key field: the length, the marker of the key's class, the key.
fn write_marked_key(buf: &mut Vec<u8>, graph: &ConversionGraph, length_type: &LengthType) -> (r: Result<
    (),
    Error,
>)
    ensures
        match marked_key(graph.graph@) {
            Err(e) => r == Err::<(), Error>(e) && final(buf)@ == old(buf)@,
            Ok(payload) => match lp_encode(payload, *length_type) {
                Err(e) => r == Err::<(), Error>(e) && final(buf)@ == old(buf)@,
                Ok(field) => r is Ok && final(buf)@ == old(buf)@ + field,
            },
        },
{
    let marker: u8 = match classify_graph_key(graph) {
        GraphKeyClass::Active => ACTIVE_MARKER,
        GraphKeyClass::Historical => HISTORICAL_MARKER,
        GraphKeyClass::Unknown => {
            return Err(Error::InvalidData(Invalid::UnknownGraphKey));
        },
    };
    let mut payload: Vec<u8> = Vec::new();
    payload.push(marker);
    payload.extend_from_slice(graph.graph.as_str().as_bytes());
    proof {
        assert(payload@ =~= seq![marker] + encode_utf8(graph.graph@));
    }
    write_length_prefixed_field(buf, payload.as_slice(), length_type)
}

impl ToBinary for ConversionGraph {
    open spec fn encoded(v: ConversionGraphView, fields: Seq<BinaryField>) -> Result<Seq<u8>, Error> {
        encode_fields(conversion_graph_writer(v), fields)
    }

    fn to_binary(&self, writer: &mut Vec<u8>, layout: &BinaryLayout) -> (r: Result<(), Error>) {
        let mut buf: Vec<u8> = Vec::new();
        buf.push(LIVE);
        let ghost mut done: Seq<u8> = Seq::empty();
        let mut i: usize = 0;
        while i < layout.fields.len()
            invariant
                i <= layout.fields@.len(),
                buf@ == seq![LIVE] + done,
                encode_fields(conversion_graph_writer(self@), layout.fields@.take(i as int))
                    == Ok::<Seq<u8>, Error>(done),
            decreases layout.fields@.len() - i,
        {
            let field = layout.fields[i];
            proof {
                lemma_encode_step(conversion_graph_writer(self@), layout.fields@, i as int);
            }
            let step: Result<(), Error> = match field {
                BinaryField::LengthPrefixed { length_type, name } => {
                    if str_eq(name, "graph") {
                        write_marked_key(&mut buf, self, &length_type)
                    } else {
                        Err(Error::InvalidData(Invalid::UnexpectedField))
                    }
                },
                BinaryField::F64(name) => {
                    if str_eq(name, "rate") {
                        write_u64(&mut buf, self.rate.bits);
                        Ok(())
                    } else {
                        Err(Error::InvalidData(Invalid::UnexpectedField))
                    }
                },
                BinaryField::I64(name) => {
                    if str_eq(name, "rate_since") {
                        write_i64(&mut buf, self.rate_since);
                        Ok(())
                    } else {
                        Err(Error::InvalidData(Invalid::UnexpectedField))
                    }
                },
                _ => Err(Error::InvalidData(Invalid::UnexpectedField)),
            };
            match step {
                Err(e) => {
                    proof {
                        lemma_encode_error(conversion_graph_writer(self@), layout.fields@, i + 1);
                    }
                    return Err(e);
                },
                Ok(()) => {},
            }
            proof {
                let bytes = conversion_graph_field_bytes(self@, field)->Ok_0;
                assert(buf@ =~= seq![LIVE] + (done + bytes));
                done = done + bytes;
            }
            i = i + 1;
        }
        proof {
            assert(layout.fields@.take(i as int) =~= layout.fields@);
        }
        writer.extend_from_slice(buf.as_slice());
        proof {
            assert(writer@ =~= old(writer)@ + seq![LIVE] + done);
        }
        Ok(())
    }
}

impl FromBinary for ConversionGraph {
    open spec fn decoded(input: Seq<u8>, fields: Seq<BinaryField>) -> Result<
        (ConversionGraphView, nat),
        Error,
    > {
        decode_fields(conversion_graph_blank(), conversion_graph_reader(), input, fields)
    }

    fn from_binary(data: &[u8], pos: usize, layout: &BinaryLayout) -> (r: Result<
        (ConversionGraph, usize),
        Error,
    >) {
        let mut graph = String::new();
        let mut rate = Double { bits: 0 };
        let mut rate_since: i64 = 0;
        let ghost input = data@.skip(pos as int);
        let total: usize = data.len();
        let mut cursor: usize = pos;
        let mut i: usize = 0;
        while i < layout.fields.len()
            invariant
                i <= layout.fields@.len(),
                pos <= cursor <= data@.len() == total,
                input == data@.skip(pos as int),
                decode_fields(
                    conversion_graph_blank(),
                    conversion_graph_reader(),
                    input,
                    layout.fields@.take(i as int),
                ) == Ok::<(ConversionGraphView, nat), Error>(
                    (ConversionGraphView { graph: graph@, rate, rate_since }, (cursor - pos) as nat),
                ),
            decreases layout.fields@.len() - i,
        {
            let field = layout.fields[i];
            proof {
                lemma_decode_step(
                    conversion_graph_blank(),
                    conversion_graph_reader(),
                    input,
                    layout.fields@,
                    i as int,
                );
                assert(input.skip(cursor - pos) =~= data@.skip(cursor as int));
            }
            let step: Result<(), Error> = match field {
                BinaryField::LengthPrefixed { length_type, name } => {
                    if str_eq(name, "graph") {
                        match read_length_prefixed_bytes(data, cursor, &length_type) {
                            Err(e) => Err(e),
                            Ok((payload, end)) => match read_marked_key(&payload) {
                                Err(e) => Err(e),
                                Ok(key) => {
                                    graph = key;
                                    cursor = end;
                                    Ok(())
                                },
                            },
                        }
                    } else {
                        Err(Error::InvalidData(Invalid::UnexpectedField))
                    }
                },
                BinaryField::F64(name) => {
                    if str_eq(name, "rate") {
                        match read_number(data, cursor, 8) {
                            Err(e) => Err(e),
                            Ok(bits) => {
                                rate = Double { bits };
                                cursor = cursor + 8;
                                Ok(())
                            },
                        }
                    } else {
                        Err(Error::InvalidData(Invalid::UnexpectedField))
                    }
                },
                BinaryField::I64(name) => {
                    if str_eq(name, "rate_since") {
                        match read_number(data, cursor, 8) {
                            Err(e) => Err(e),
                            Ok(bits) => {
                                rate_since = i64_from_bits(bits);
                                cursor = cursor + 8;
                                Ok(())
                            },
                        }
                    } else {
                        Err(Error::InvalidData(Invalid::UnexpectedField))
                    }
                },
                _ => Err(Error::InvalidData(Invalid::UnexpectedField)),
            };
            match step {
                Err(e) => {
                    proof {
                        lemma_decode_error(
                            conversion_graph_blank(),
                            conversion_graph_reader(),
                            input,
                            layout.fields@,
                            i + 1,
                        );
                    }
                    return Err(e);
                },
                Ok(()) => {},
            }
            i = i + 1;
        }
        proof {
            assert(layout.fields@.take(i as int) =~= layout.fields@);
        }
        Ok((ConversionGraph { graph, rate, rate_since }, cursor))
    }

    fn skip_bytes(data: &[u8], pos: usize, layout: &BinaryLayout) -> (r: Result<usize, Error>) {
        skip_fields(data, pos, layout)
    }
}

/// Every field of a conversion graph occupies what was written of it.
pub proof fn lemma_conversion_graph_writer_keeps_extent(v: ConversionGraphView)
    ensures
        writer_keeps_extent(conversion_graph_writer(v)),
{
    let w = conversion_graph_writer(v);
    assert forall|field: BinaryField, tail: Seq<u8>| w(field) is Ok implies #[trigger] field_extent(
        field,
        w(field)->Ok_0 + tail,
    ) == Ok::<nat, Error>(w(field)->Ok_0.len()) by {
        lemma_le_bytes_len(v.rate.bits as nat, 8);
        lemma_le_bytes_len(i64_bits(v.rate_since), 8);
        match field {
            BinaryField::LengthPrefixed { length_type, name } => {
                lemma_lp_extent(marked_key(v.graph)->Ok_0, length_type, name, tail);
            },
            _ => {},
        }
    }
}

/// An active conversion graph written in the catalog's layout and read back,
/// whatever follows it, is the same graph, and the reading stops where the
/// writing did.
pub proof fn lemma_conversion_graph_roundtrip(v: ConversionGraphView, rest: Seq<u8>)
    requires
        graph_key_class(v.graph) == GraphKeyClass::Active,
        ConversionGraph::encoded(v, conversion_graph_fields()) is Ok,
    ensures
        ConversionGraph::decoded(
            ConversionGraph::encoded(v, conversion_graph_fields())->Ok_0 + rest,
            conversion_graph_fields(),
        ) == Ok::<(ConversionGraphView, nat), Error>(
            (v, ConversionGraph::encoded(v, conversion_graph_fields())->Ok_0.len()),
        ),
{
    let fields = conversion_graph_fields();
    let w = conversion_graph_writer(v);
    let r = conversion_graph_reader();
    let blank = conversion_graph_blank();
    let a0 = ConversionGraphView { graph: v.graph, ..blank };
    let a1 = ConversionGraphView { rate: v.rate, ..a0 };
    let stages = seq![blank, a0, a1, v];
    assert(w(fields[0]) is Ok) by {
        assert(fields.take(0) =~= Seq::<BinaryField>::empty());
        lemma_encode_step(w, fields, 0);
        lemma_encode_step(w, fields, 1);
        lemma_encode_step(w, fields, 2);
        assert(fields.take(3) =~= fields);
    }
    assert(reads_back(r, w, fields[0], blank, a0)) by {
        let payload = seq![ACTIVE_MARKER] + encode_utf8(v.graph);
        lemma_text_roundtrip(v.graph);
        assert(payload.skip(1) =~= encode_utf8(v.graph));
        assert forall|tail: Seq<u8>| #[trigger]
            r(blank, fields[0], w(fields[0])->Ok_0 + tail) == Ok::<
                (ConversionGraphView, nat),
                Error,
            >((a0, w(fields[0])->Ok_0.len())) by {
            lemma_lp_roundtrip(payload, LengthType::U8, tail);
        }
    }
    assert(reads_back(r, w, fields[1], a0, a1)) by {
        let bytes = le_bytes(v.rate.bits as nat, 8);
        lemma_le_bytes_len(v.rate.bits as nat, 8);
        lemma_pow256_values();
        lemma_le_roundtrip(v.rate.bits as nat, 8);
        assert forall|tail: Seq<u8>| #[trigger]
            r(a0, fields[1], w(fields[1])->Ok_0 + tail) == Ok::<
                (ConversionGraphView, nat),
                Error,
            >((a1, w(fields[1])->Ok_0.len())) by {
            assert((bytes + tail).take(8) =~= bytes);
        }
    }
    assert(reads_back(r, w, fields[2], a1, v)) by {
        let bytes = le_bytes(i64_bits(v.rate_since), 8);
        lemma_le_bytes_len(i64_bits(v.rate_since), 8);
        lemma_pow256_values();
        lemma_i64_roundtrip(v.rate_since);
        lemma_le_roundtrip(i64_bits(v.rate_since), 8);
        assert forall|tail: Seq<u8>| #[trigger]
            r(a1, fields[2], w(fields[2])->Ok_0 + tail) == Ok::<
                (ConversionGraphView, nat),
                Error,
            >((v, w(fields[2])->Ok_0.len())) by {
            assert((bytes + tail).take(8) =~= bytes);
        }
    }
    lemma_fields_read_back(r, w, fields, stages, rest);
}

/// An archived conversion graph written in the catalog's layout is not read
/// back as a record: reading it reports a historical record.
pub proof fn lemma_historical_graph_is_refused(v: ConversionGraphView, rest: Seq<u8>)
    requires
        graph_key_class(v.graph) == GraphKeyClass::Historical,
        ConversionGraph::encoded(v, conversion_graph_fields()) is Ok,
    ensures
        ConversionGraph::decoded(
            ConversionGraph::encoded(v, conversion_graph_fields())->Ok_0 + rest,
            conversion_graph_fields(),
        ) == Err::<(ConversionGraphView, nat), Error>(Error::HistoricalRecord),
{
    let fields = conversion_graph_fields();
    let w = conversion_graph_writer(v);
    let r = conversion_graph_reader();
    let blank = conversion_graph_blank();
    assert(fields.take(0) =~= Seq::<BinaryField>::empty());
    lemma_encode_step(w, fields, 0);
    lemma_encode_step(w, fields, 1);
    lemma_encode_step(w, fields, 2);
    assert(fields.take(3) =~= fields);
    let payload = seq![HISTORICAL_MARKER] + encode_utf8(v.graph);
    let b0 = lp_encode(payload, LengthType::U8)->Ok_0;
    let b1 = le_bytes(v.rate.bits as nat, 8);
    let b2 = le_bytes(i64_bits(v.rate_since), 8);
    let input = Seq::<u8>::empty() + b0 + b1 + b2 + rest;
    lemma_lp_roundtrip(payload, LengthType::U8, b1 + b2 + rest);
    assert(input.skip(0) =~= b0 + (b1 + b2 + rest));
    lemma_decode_step(blank, r, input, fields, 0);
    lemma_decode_error(blank, r, input, fields, 1);
}

/// A conversion graph that can be written in the catalog's layout has an
/// active or a historical key.
pub proof fn lemma_written_graph_has_a_class(v: ConversionGraphView)
    requires
        ConversionGraph::encoded(v, conversion_graph_fields()) is Ok,
    ensures
        graph_key_class(v.graph) == GraphKeyClass::Active || graph_key_class(v.graph)
            == GraphKeyClass::Historical,
{
    let fields = conversion_graph_fields();
    let w = conversion_graph_writer(v);
    assert(fields.take(0) =~= Seq::<BinaryField>::empty());
    lemma_encode_step(w, fields, 0);
    lemma_encode_step(w, fields, 1);
    lemma_encode_step(w, fields, 2);
    assert(fields.take(3) =~= fields);
}

} // verus!
