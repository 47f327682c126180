//! The record codec: each record family written and read field by field, in
//! the order its layout gives.

use vstd::prelude::*;
use crate::error::{Error, Invalid};
use crate::model::{AccountType, ConversionGraph};
use crate::platform::{regex_is_match, regex_match};
use crate::storage::fields::{lp_decode, lp_encode};
use crate::storage::layout::{BinaryField, BinaryLayout, LengthType};
use crate::storage::wire::{le_value, lemma_le_value_bound, lemma_pow256_values, read_le};

verus! {

/// The liveness byte of a record that is in force.
pub const LIVE: u8 = 0x01;

/// The liveness byte of a record that was tombstoned.
pub const TOMBSTONE: u8 = 0x00;

/// A record that can be written in binary form.
pub trait ToBinary: View + Sized {
    /// The fields of the record in layout order, or why the record cannot be
    /// written.
    spec fn encoded(v: Self::V, fields: Seq<BinaryField>) -> Result<Seq<u8>, Error>;

    /// Appends the liveness byte of a live record and then the fields in
    /// layout order; on refusal the writer is left as it was.
    fn to_binary(&self, writer: &mut Vec<u8>, layout: &BinaryLayout) -> (r: Result<(), Error>)
        ensures
            match Self::encoded(self@, layout.fields@) {
                Ok(bytes) => r is Ok && final(writer)@ == old(writer)@ + seq![LIVE] + bytes,
                Err(e) => r == Err::<(), Error>(e) && final(writer)@ == old(writer)@,
            },
    ;
}

/// A record that can be read from binary form.
pub trait FromBinary: View + Sized {
    /// The record that the head of the input holds and the number of bytes
    /// it occupies, or why it cannot be read.
    spec fn decoded(input: Seq<u8>, fields: Seq<BinaryField>) -> Result<(Self::V, nat), Error>;

    /// Reads the fields in layout order, from `pos` on: the record and the
    /// position after it.
    fn from_binary(data: &[u8], pos: usize, layout: &BinaryLayout) -> (r: Result<(Self, usize), Error>)
        requires
            pos <= data@.len(),
        ensures
            match Self::decoded(data@.skip(pos as int), layout.fields@) {
                Ok((v, used)) => r is Ok && r->Ok_0.0@ == v && r->Ok_0.1 == pos + used && pos
                    + used <= data@.len(),
                Err(e) => r == Err::<(Self, usize), Error>(e),
            },
    ;

    /// Walks over the fields in layout order without reading them, from
    /// `pos` on: the position after the record.
    fn skip_bytes(data: &[u8], pos: usize, layout: &BinaryLayout) -> (r: Result<usize, Error>)
        requires
            pos <= data@.len(),
        ensures
            match record_extent(data@.skip(pos as int), layout.fields@) {
                Ok(used) => r == Ok::<usize, Error>((pos + used) as usize) && pos + used
                    <= data@.len(),
                Err(e) => r == Err::<usize, Error>(e),
            },
    ;
}

/// The fields of a record, one after the other in layout order. The first
/// field that cannot be written decides the error.
pub open spec fn encode_fields(
    field_bytes: spec_fn(BinaryField) -> Result<Seq<u8>, Error>,
    fields: Seq<BinaryField>,
) -> Result<Seq<u8>, Error>
    decreases fields.len(),
{
    if fields.len() == 0 {
        Ok(Seq::empty())
    } else {
        match encode_fields(field_bytes, fields.drop_last()) {
            Err(e) => Err(e),
            Ok(head) => match field_bytes(fields.last()) {
                Err(e) => Err(e),
                Ok(bytes) => Ok(head + bytes),
            },
        }
    }
}

/// The record that the head of the input holds and the number of bytes it
/// occupies. The first field that cannot be read decides the error.
pub open spec fn decode_fields<V>(
    blank: V,
    decode_field: spec_fn(V, BinaryField, Seq<u8>) -> Result<(V, nat), Error>,
    input: Seq<u8>,
    fields: Seq<BinaryField>,
) -> Result<(V, nat), Error>
    decreases fields.len(),
{
    if fields.len() == 0 {
        Ok((blank, 0))
    } else {
        match decode_fields(blank, decode_field, input, fields.drop_last()) {
            Err(e) => Err(e),
            Ok((acc, used)) => match decode_field(acc, fields.last(), input.skip(used as int)) {
                Err(e) => Err(e),
                Ok((next, more)) => Ok((next, used + more)),
            },
        }
    }
}

/// Writing one more field extends what was written so far.
pub proof fn lemma_encode_step(
    field_bytes: spec_fn(BinaryField) -> Result<Seq<u8>, Error>,
    fields: Seq<BinaryField>,
    i: int,
)
    requires
        0 <= i < fields.len(),
    ensures
        encode_fields(field_bytes, fields.take(i + 1)) == match encode_fields(
            field_bytes,
            fields.take(i),
        ) {
            Err(e) => Err(e),
            Ok(head) => match field_bytes(fields[i]) {
                Err(e) => Err(e),
                Ok(bytes) => Ok(head + bytes),
            },
        },
{
    assert(fields.take(i + 1).drop_last() =~= fields.take(i));
}

/// A field that cannot be written fails the whole record.
pub proof fn lemma_encode_error(
    field_bytes: spec_fn(BinaryField) -> Result<Seq<u8>, Error>,
    fields: Seq<BinaryField>,
    k: int,
)
    requires
        0 <= k <= fields.len(),
        encode_fields(field_bytes, fields.take(k)) is Err,
    ensures
        encode_fields(field_bytes, fields) == encode_fields(field_bytes, fields.take(k)),
    decreases fields.len() - k,
{
    if k == fields.len() {
        assert(fields.take(k) =~= fields);
    } else {
        lemma_encode_step(field_bytes, fields, k);
        lemma_encode_error(field_bytes, fields, k + 1);
    }
}

/// Reading one more field continues from what was read so far.
pub proof fn lemma_decode_step<V>(
    blank: V,
    decode_field: spec_fn(V, BinaryField, Seq<u8>) -> Result<(V, nat), Error>,
    input: Seq<u8>,
    fields: Seq<BinaryField>,
    i: int,
)
    requires
        0 <= i < fields.len(),
    ensures
        decode_fields(blank, decode_field, input, fields.take(i + 1)) == match decode_fields(
            blank,
            decode_field,
            input,
            fields.take(i),
        ) {
            Err(e) => Err(e),
            Ok((acc, used)) => match decode_field(acc, fields[i], input.skip(used as int)) {
                Err(e) => Err(e),
                Ok((next, more)) => Ok((next, used + more)),
            },
        },
{
    assert(fields.take(i + 1).drop_last() =~= fields.take(i));
}

/// A field that cannot be read fails the whole record.
pub proof fn lemma_decode_error<V>(
    blank: V,
    decode_field: spec_fn(V, BinaryField, Seq<u8>) -> Result<(V, nat), Error>,
    input: Seq<u8>,
    fields: Seq<BinaryField>,
    k: int,
)
    requires
        0 <= k <= fields.len(),
        decode_fields(blank, decode_field, input, fields.take(k)) is Err,
    ensures
        decode_fields(blank, decode_field, input, fields) == decode_fields(
            blank,
            decode_field,
            input,
            fields.take(k),
        ),
    decreases fields.len() - k,
{
    if k == fields.len() {
        assert(fields.take(k) =~= fields);
    } else {
        lemma_decode_step(blank, decode_field, input, fields, k);
        lemma_decode_error(blank, decode_field, input, fields, k + 1);
    }
}

/// Whether the reader, given what the writer wrote of the field and anything
/// after it, turns the record `acc` into `next` and stops where the writing
/// did.
pub open spec fn reads_back<V>(
    decode_field: spec_fn(V, BinaryField, Seq<u8>) -> Result<(V, nat), Error>,
    field_bytes: spec_fn(BinaryField) -> Result<Seq<u8>, Error>,
    field: BinaryField,
    acc: V,
    next: V,
) -> bool {
    forall|tail: Seq<u8>| #[trigger]
        decode_field(acc, field, field_bytes(field)->Ok_0 + tail) == Ok::<(V, nat), Error>(
            (next, field_bytes(field)->Ok_0.len()),
        )
}

/// Fields that read back one by one read back as a record: where each field
/// of the layout takes the record from one stage to the next, reading what
/// was written takes it from the first stage to the last.
pub proof fn lemma_fields_read_back<V>(
    decode_field: spec_fn(V, BinaryField, Seq<u8>) -> Result<(V, nat), Error>,
    field_bytes: spec_fn(BinaryField) -> Result<Seq<u8>, Error>,
    fields: Seq<BinaryField>,
    stages: Seq<V>,
    rest: Seq<u8>,
)
    requires
        stages.len() == fields.len() + 1,
        encode_fields(field_bytes, fields) is Ok,
        forall|i: int|
            0 <= i < fields.len() ==> #[trigger] reads_back(
                decode_field,
                field_bytes,
                fields[i],
                stages[i],
                stages[i + 1],
            ),
    ensures
        decode_fields(
            stages[0],
            decode_field,
            encode_fields(field_bytes, fields)->Ok_0 + rest,
            fields,
        ) == Ok::<(V, nat), Error>((stages.last(), encode_fields(field_bytes, fields)->Ok_0.len())),
    decreases fields.len(),
{
    if fields.len() > 0 {
        let n = fields.len() as int;
        let head = encode_fields(field_bytes, fields.drop_last())->Ok_0;
        let bytes = field_bytes(fields.last())->Ok_0;
        let input = head + bytes + rest;
        assert forall|i: int| 0 <= i < fields.drop_last().len() implies #[trigger] reads_back(
            decode_field,
            field_bytes,
            fields.drop_last()[i],
            stages.drop_last()[i],
            stages.drop_last()[i + 1],
        ) by {
            assert(reads_back(decode_field, field_bytes, fields[i], stages[i], stages[i + 1]));
        }
        lemma_fields_read_back(
            decode_field,
            field_bytes,
            fields.drop_last(),
            stages.drop_last(),
            bytes + rest,
        );
        assert(head + (bytes + rest) =~= input);
        assert(input.skip(head.len() as int) =~= bytes + rest);
        assert(reads_back(
            decode_field,
            field_bytes,
            fields[n - 1],
            stages[n - 1],
            stages[n - 1 + 1],
        ));
        assert(stages.drop_last()[0] == stages[0]);
        assert(stages.drop_last().last() == stages[n - 1]);
    }
}

/// The number of bytes that a field of the given size occupies at the head
/// of the input, if the input has that many.
pub open spec fn fixed_extent(input: Seq<u8>, size: nat) -> Result<nat, Error> {
    if input.len() < size {
        Err(Error::UnexpectedEof)
    } else {
        Ok(size)
    }
}

/// The number of bytes that a field occupies at the head of the input.
pub open spec fn field_extent(field: BinaryField, input: Seq<u8>) -> Result<nat, Error> {
    match field {
        BinaryField::Uuid(_) => fixed_extent(input, 16),
        BinaryField::U8(_) => fixed_extent(input, 1),
        BinaryField::U32(_) => fixed_extent(input, 4),
        BinaryField::I64(_) => fixed_extent(input, 8),
        BinaryField::F64(_) => fixed_extent(input, 8),
        BinaryField::LengthPrefixed { length_type, .. } => match lp_decode(input, length_type) {
            Err(e) => Err(e),
            Ok((_, used)) => Ok(used),
        },
    }
}

/// The number of bytes that a record of the given layout occupies at the head
/// of the input, whatever the record holds.
pub open spec fn record_extent(input: Seq<u8>, fields: Seq<BinaryField>) -> Result<nat, Error>
    decreases fields.len(),
{
    if fields.len() == 0 {
        Ok(0)
    } else {
        match record_extent(input, fields.drop_last()) {
            Err(e) => Err(e),
            Ok(used) => match field_extent(fields.last(), input.skip(used as int)) {
                Err(e) => Err(e),
                Ok(more) => Ok(used + more),
            },
        }
    }
}

/// Walking over one more field continues from where the walk stands.
pub proof fn lemma_extent_step(input: Seq<u8>, fields: Seq<BinaryField>, i: int)
    requires
        0 <= i < fields.len(),
    ensures
        record_extent(input, fields.take(i + 1)) == match record_extent(input, fields.take(i)) {
            Err(e) => Err(e),
            Ok(used) => match field_extent(fields[i], input.skip(used as int)) {
                Err(e) => Err(e),
                Ok(more) => Ok(used + more),
            },
        },
{
    assert(fields.take(i + 1).drop_last() =~= fields.take(i));
}

/// A field that runs past the end fails the whole walk.
pub proof fn lemma_extent_error(input: Seq<u8>, fields: Seq<BinaryField>, k: int)
    requires
        0 <= k <= fields.len(),
        record_extent(input, fields.take(k)) is Err,
    ensures
        record_extent(input, fields) == record_extent(input, fields.take(k)),
    decreases fields.len() - k,
{
    if k == fields.len() {
        assert(fields.take(k) =~= fields);
    } else {
        lemma_extent_step(input, fields, k);
        lemma_extent_error(input, fields, k + 1);
    }
}

/// Whether each field that the writer can write occupies, read back as a field
/// of its kind, exactly the bytes that were written.
pub open spec fn writer_keeps_extent(field_bytes: spec_fn(BinaryField) -> Result<Seq<u8>, Error>) -> bool {
    forall|field: BinaryField, tail: Seq<u8>|
        #![trigger field_extent(field, field_bytes(field)->Ok_0 + tail)]
        field_bytes(field) is Ok ==> field_extent(field, field_bytes(field)->Ok_0 + tail) == Ok::<
            nat,
            Error,
        >(field_bytes(field)->Ok_0.len())
}

/// The layout walker steps over a written record exactly, whatever follows
/// it.
pub proof fn lemma_encoded_extent(
    field_bytes: spec_fn(BinaryField) -> Result<Seq<u8>, Error>,
    fields: Seq<BinaryField>,
    rest: Seq<u8>,
)
    requires
        writer_keeps_extent(field_bytes),
        encode_fields(field_bytes, fields) is Ok,
    ensures
        record_extent(encode_fields(field_bytes, fields)->Ok_0 + rest, fields) == Ok::<nat, Error>(
            encode_fields(field_bytes, fields)->Ok_0.len(),
        ),
    decreases fields.len(),
{
    if fields.len() > 0 {
        let head = encode_fields(field_bytes, fields.drop_last())->Ok_0;
        let bytes = field_bytes(fields.last())->Ok_0;
        let input = head + bytes + rest;
        lemma_encoded_extent(field_bytes, fields.drop_last(), bytes + rest);
        assert(head + (bytes + rest) =~= input);
        assert(input.skip(head.len() as int) =~= bytes + rest);
    }
}

/// A length-prefixed field that was written is stepped over exactly.
pub proof fn lemma_lp_extent(payload: Seq<u8>, length_type: LengthType, name: &'static str, tail: Seq<u8>)
    requires
        lp_encode(payload, length_type) is Ok,
    ensures
        field_extent(
            BinaryField::LengthPrefixed { length_type, name },
            lp_encode(payload, length_type)->Ok_0 + tail,
        ) == Ok::<nat, Error>(lp_encode(payload, length_type)->Ok_0.len()),
{
    crate::storage::fields::lemma_lp_roundtrip(payload, length_type, tail);
}

/// The layout walker: the position after the record that starts at `pos`.
pub fn skip_fields(data: &[u8], pos: usize, layout: &BinaryLayout) -> (r: Result<usize, Error>)
    requires
        pos <= data@.len(),
    ensures
        match record_extent(data@.skip(pos as int), layout.fields@) {
            Ok(used) => r == Ok::<usize, Error>((pos + used) as usize) && pos + used <= data@.len(),
            Err(e) => r == Err::<usize, Error>(e),
        },
{
    let ghost input = data@.skip(pos as int);
    let total: usize = data.len();
    let mut cursor: usize = pos;
    let mut i: usize = 0;
    while i < layout.fields.len()
        invariant
            i <= layout.fields@.len(),
            pos <= cursor <= data@.len() == total,
            input == data@.skip(pos as int),
            record_extent(input, layout.fields@.take(i as int)) == Ok::<nat, Error>(
                (cursor - pos) as nat,
            ),
        decreases layout.fields@.len() - i,
    {
        let field = layout.fields[i];
        proof {
            lemma_extent_step(input, layout.fields@, i as int);
            assert(input.skip(cursor - pos) =~= data@.skip(cursor as int));
        }
        let size: usize = match field {
            BinaryField::Uuid(_) => 16,
            BinaryField::U8(_) => 1,
            BinaryField::U32(_) => 4,
            BinaryField::I64(_) => 8,
            BinaryField::F64(_) => 8,
            BinaryField::LengthPrefixed { length_type, .. } => {
                let w = length_type.byte_len();
                if total - cursor < w {
                    proof {
                        lemma_extent_error(input, layout.fields@, i + 1);
                    }
                    return Err(Error::UnexpectedEof);
                }
                let n64 = read_le(data, cursor, w);
                proof {
                    assert(data@.skip(cursor as int).take(w as int) =~= data@.subrange(
                        cursor as int,
                        cursor + w,
                    ));
                    lemma_le_value_bound(data@.subrange(cursor as int, cursor + w));
                    lemma_pow256_values();
                }
                if n64 > (total - cursor - w) as u64 {
                    proof {
                        lemma_extent_error(input, layout.fields@, i + 1);
                    }
                    return Err(Error::UnexpectedEof);
                }
                w + n64 as usize
            },
        };
        if total - cursor < size {
            proof {
                lemma_extent_error(input, layout.fields@, i + 1);
            }
            return Err(Error::UnexpectedEof);
        }
        cursor = cursor + size;
        i = i + 1;
    }
    proof {
        assert(layout.fields@.take(i as int) =~= layout.fields@);
    }
    Ok(cursor)
}

/// One step of sizing an object: the cursor after the field. Fields of fixed
/// size are counted without looking at the data; the length of a
/// length-prefixed field is read from the data, which must hold the whole
/// prefix.
pub open spec fn object_cursor_step(field: BinaryField, data: Seq<u8>, cursor: nat) -> Result<
    nat,
    Error,
> {
    let next: Result<nat, Error> = match field {
        BinaryField::Uuid(_) => Ok(cursor + 16),
        BinaryField::U8(_) => Ok(cursor + 1),
        BinaryField::U32(_) => Ok(cursor + 4),
        BinaryField::I64(_) => Ok(cursor + 8),
        BinaryField::F64(_) => Ok(cursor + 8),
        BinaryField::LengthPrefixed { length_type, .. } => {
            let w = length_type.spec_byte_len();
            if cursor + w > data.len() {
                Err(Error::UnexpectedEof)
            } else {
                Ok(cursor + w + le_value(data.subrange(cursor as int, (cursor + w) as int)))
            }
        },
    };
    match next {
        Err(e) => Err(e),
        Ok(end) => if end > usize::MAX {
            Err(Error::InvalidData(Invalid::TooLarge))
        } else {
            Ok(end)
        },
    }
}

/// The cursor after an object of the given layout that starts at `offset`.
pub open spec fn object_end(fields: Seq<BinaryField>, data: Seq<u8>, offset: nat) -> Result<
    nat,
    Error,
>
    decreases fields.len(),
{
    if fields.len() == 0 {
        Ok(offset)
    } else {
        match object_end(fields.drop_last(), data, offset) {
            Err(e) => Err(e),
            Ok(cursor) => object_cursor_step(fields.last(), data, cursor),
        }
    }
}

pub proof fn lemma_object_end_step(fields: Seq<BinaryField>, data: Seq<u8>, offset: nat, i: int)
    requires
        0 <= i < fields.len(),
    ensures
        object_end(fields.take(i + 1), data, offset) == match object_end(
            fields.take(i),
            data,
            offset,
        ) {
            Err(e) => Err(e),
            Ok(cursor) => object_cursor_step(fields[i], data, cursor),
        },
{
    assert(fields.take(i + 1).drop_last() =~= fields.take(i));
}

pub proof fn lemma_object_end_error(fields: Seq<BinaryField>, data: Seq<u8>, offset: nat, k: int)
    requires
        0 <= k <= fields.len(),
        object_end(fields.take(k), data, offset) is Err,
    ensures
        object_end(fields, data, offset) == object_end(fields.take(k), data, offset),
    decreases fields.len() - k,
{
    if k == fields.len() {
        assert(fields.take(k) =~= fields);
    } else {
        lemma_object_end_step(fields, data, offset, k);
        lemma_object_end_error(fields, data, offset, k + 1);
    }
}

/// The size of the object of the given layout that starts at `offset`: the
/// sizes of its fields added up. Fails with `UnexpectedEof` where a length
/// prefix is not wholly inside the data, and with `InvalidData` where the
/// object would end beyond what an address can hold.
pub fn compute_object_size(layout: &BinaryLayout, data: &[u8], offset: usize) -> (r: Result<
    usize,
    Error,
>)
    ensures
        match object_end(layout.fields@, data@, offset as nat) {
            Ok(end) => r == Ok::<usize, Error>((end - offset) as usize) && offset <= end,
            Err(e) => r == Err::<usize, Error>(e),
        },
{
    let total: usize = data.len();
    let mut cursor: usize = offset;
    let mut i: usize = 0;
    while i < layout.fields.len()
        invariant
            i <= layout.fields@.len(),
            offset <= cursor,
            total == data@.len(),
            object_end(layout.fields@.take(i as int), data@, offset as nat) == Ok::<nat, Error>(
                cursor as nat,
            ),
        decreases layout.fields@.len() - i,
    {
        let field = layout.fields[i];
        proof {
            lemma_object_end_step(layout.fields@, data@, offset as nat, i as int);
        }
        let size: u64 = match field {
            BinaryField::Uuid(_) => 16,
            BinaryField::U8(_) => 1,
            BinaryField::U32(_) => 4,
            BinaryField::I64(_) => 8,
            BinaryField::F64(_) => 8,
            BinaryField::LengthPrefixed { length_type, .. } => {
                let w = length_type.byte_len();
                if cursor > total || total - cursor < w {
                    proof {
                        lemma_object_end_error(layout.fields@, data@, offset as nat, i + 1);
                    }
                    return Err(Error::UnexpectedEof);
                }
                let n64 = read_le(data, cursor, w);
                proof {
                    lemma_le_value_bound(data@.subrange(cursor as int, cursor + w));
                    lemma_pow256_values();
                }
                w as u64 + n64
            },
        };
        if size > (usize::MAX - cursor) as u64 {
            proof {
                lemma_object_end_error(layout.fields@, data@, offset as nat, i + 1);
            }
            return Err(Error::InvalidData(Invalid::TooLarge));
        }
        cursor = cursor + size as usize;
        i = i + 1;
    }
    proof {
        assert(layout.fields@.take(i as int) =~= layout.fields@);
    }
    Ok(cursor - offset)
}

/// The byte that stands for an account type on disk.
pub open spec fn account_type_code(account_type: AccountType) -> u8 {
    match account_type {
        AccountType::Asset => 0,
        AccountType::Liability => 1,
        AccountType::Equity => 2,
        AccountType::Revenue => 3,
        AccountType::Expense => 4,
    }
}

/// The account type that a byte stands for, if any.
pub open spec fn account_type_of_code(byte: u8) -> Option<AccountType> {
    if byte == 0 {
        Some(AccountType::Asset)
    } else if byte == 1 {
        Some(AccountType::Liability)
    } else if byte == 2 {
        Some(AccountType::Equity)
    } else if byte == 3 {
        Some(AccountType::Revenue)
    } else if byte == 4 {
        Some(AccountType::Expense)
    } else {
        None
    }
}

/// Bytes and account types correspond one to one.
pub proof fn lemma_account_type_codes(account_type: AccountType, byte: u8)
    ensures
        account_type_of_code(account_type_code(account_type)) == Some(account_type),
        account_type_of_code(byte) == Some(account_type) ==> account_type_code(account_type)
            == byte,
{
}

/// The account type that a byte stands for, if any.
pub fn account_type_from_u8(byte: u8) -> (r: Option<AccountType>)
    ensures
        r == account_type_of_code(byte),
{
    if byte == 0 {
        Some(AccountType::Asset)
    } else if byte == 1 {
        Some(AccountType::Liability)
    } else if byte == 2 {
        Some(AccountType::Equity)
    } else if byte == 3 {
        Some(AccountType::Revenue)
    } else if byte == 4 {
        Some(AccountType::Expense)
    } else {
        None
    }
}

/// The byte that stands for an account type; every type has one.
pub fn account_type_to_u8(account_type: &AccountType) -> (r: Option<u8>)
    ensures
        r == Some(account_type_code(*account_type)),
{
    match account_type {
        AccountType::Asset => Some(0),
        AccountType::Liability => Some(1),
        AccountType::Equity => Some(2),
        AccountType::Revenue => Some(3),
        AccountType::Expense => Some(4),
    }
}

/// What kind of key a conversion graph carries.
#[derive(Debug, Clone, Copy, PartialEq, Eq, Structural)]
pub enum GraphKeyClass {
    /// A direction between two systems, such as `USD -> IDR`.
    Active,
    /// A direction in square brackets between the two instants it held from
    /// and to.
    Historical,
    /// Neither.
    Unknown,
}

/// The pattern of an active key: a word, an arrow, a word.
pub const ACTIVE_KEY_PATTERN: &'static str = "^\\s*\\w+\\s*(->|<-|<->)\\s*\\w+\\s*$";

/// The pattern of a historical key: an RFC 3339 instant, an active key in
/// square brackets, an RFC 3339 instant.
pub const HISTORICAL_KEY_PATTERN: &'static str =
    "^\\d{4}-\\d{2}-\\d{2}T\\d{2}:\\d{2}:\\d{2}(?:\\.\\d+)?[+-]\\d{2}:\\d{2}\\[\\s*\\w+\\s*(->|<-|<->)\\s*\\w+\\s*\\]\\d{4}-\\d{2}-\\d{2}T\\d{2}:\\d{2}:\\d{2}(?:\\.\\d+)?[+-]\\d{2}:\\d{2}$";

/// The class that follows from whether the historical pattern and the active
/// pattern match: historical wins, and a pattern that did not compile counts
/// as no match.
pub open spec fn class_of_matches(historical: Option<bool>, active: Option<bool>) -> GraphKeyClass {
    if historical == Some(true) {
        GraphKeyClass::Historical
    } else if active == Some(true) {
        GraphKeyClass::Active
    } else {
        GraphKeyClass::Unknown
    }
}

/// The class of a key.
pub open spec fn graph_key_class(key: Seq<char>) -> GraphKeyClass {
    class_of_matches(
        regex_match(HISTORICAL_KEY_PATTERN@, key),
        regex_match(ACTIVE_KEY_PATTERN@, key),
    )
}

/// The class that follows from whether the historical pattern and the active
/// pattern match.
pub fn classify_matches(historical: Option<bool>, active: Option<bool>) -> (class: GraphKeyClass)
    ensures
        class == class_of_matches(historical, active),
{
    match historical {
        Some(true) => GraphKeyClass::Historical,
        _ => match active {
            Some(true) => GraphKeyClass::Active,
            _ => GraphKeyClass::Unknown,
        },
    }
}

/// The class of a key, by matching it against the two patterns.
pub fn classify_key(key: &str) -> (class: GraphKeyClass)
    ensures
        class == graph_key_class(key@),
{
    let historical = regex_is_match(HISTORICAL_KEY_PATTERN, key);
    let active = regex_is_match(ACTIVE_KEY_PATTERN, key);
    classify_matches(historical, active)
}

/// The class of a conversion graph's key.
pub fn classify_graph_key(graph: &ConversionGraph) -> (class: GraphKeyClass)
    ensures
        class == graph_key_class(graph.graph@),
{
    classify_key(graph.graph.as_str())
}

/// Field names that one record type uses for fields of one kind are
/// different names.
pub proof fn lemma_field_names_differ()
    ensures
        "id"@ != "transaction_id"@,
        "id"@ != "account_id"@,
        "transaction_id"@ != "account_id"@,
        "name"@ != "system_id"@,
        "description"@ != "metadata"@,
        "system_id"@ != "description"@,
{
    reveal_strlit("id");
    reveal_strlit("transaction_id");
    reveal_strlit("account_id");
    reveal_strlit("name");
    reveal_strlit("system_id");
    reveal_strlit("description");
    reveal_strlit("metadata");
    assert("id"@.len() == 2);
    assert("transaction_id"@.len() == 14);
    assert("account_id"@.len() == 10);
    assert("name"@.len() == 4);
    assert("system_id"@.len() == 9);
    assert("description"@.len() == 11);
    assert("metadata"@.len() == 8);
}

} // verus!
