//! Identifiers, and how a natural key becomes one.

use vstd::prelude::*;
use vstd::std_specs::hash::DefaultHasherAdditionalSpecFns;
use std::collections::hash_map::DefaultHasher;
use std::hash::Hasher;
use crate::storage::wire::{
    be_bytes, be_value, le_bytes, lemma_be_value_bound, lemma_le_bytes_len, lemma_pow256_values,
    push_be, push_le, read_be,
};

verus! {

/// A 128-bit identifier. Its sixteen bytes, read most significant first, are
/// `value`; identifiers are ordered as their byte strings are.
#[derive(Debug, Clone, Copy, PartialEq, Eq, Structural, Hash)]
pub struct Uuid {
    pub value: u128,
}

impl Uuid {
    /// The sixteen bytes of the identifier.
    pub open spec fn spec_bytes(self) -> Seq<u8> {
        be_bytes(self.value as nat, 16)
    }

    /// The identifier that sixteen bytes spell.
    pub open spec fn spec_from_bytes(bytes: Seq<u8>) -> Uuid {
        Uuid { value: be_value(bytes) as u128 }
    }

    /// The identifier whose bytes are all zero.
    pub fn nil() -> (id: Uuid)
        ensures
            id.value == 0,
    {
        Uuid { value: 0 }
    }

    pub fn from_u128(value: u128) -> (id: Uuid)
        ensures
            id.value == value,
    {
        Uuid { value }
    }

    pub fn as_u128(&self) -> (value: u128)
        ensures
            value == self.value,
    {
        self.value
    }

    /// The identifier that sixteen bytes spell.
    pub fn from_bytes(bytes: [u8; 16]) -> (id: Uuid)
        ensures
            id == Uuid::spec_from_bytes(bytes@),
            id.spec_bytes() == bytes@,
    {
        let value = read_be(bytes.as_slice(), 0, 16);
        proof {
            assert(bytes@.subrange(0, 16) =~= bytes@);
            lemma_be_value_bound(bytes@);
            lemma_pow256_values();
            crate::storage::wire::lemma_be_bytes_of_value(bytes@);
        }
        Uuid { value }
    }

    /// The sixteen bytes of the identifier.
    pub fn to_bytes(&self) -> (bytes: Vec<u8>)
        ensures
            bytes@ == self.spec_bytes(),
            bytes@.len() == 16,
    {
        let mut bytes: Vec<u8> = Vec::new();
        push_be(&mut bytes, self.value, 16);
        proof {
            crate::storage::wire::lemma_be_bytes_len(self.value as nat, 16);
            assert(Seq::<u8>::empty() + self.spec_bytes() =~= self.spec_bytes());
        }
        bytes
    }
}

/// Reading an identifier's bytes back gives the identifier.
pub proof fn lemma_uuid_bytes_roundtrip(id: Uuid)
    ensures
        id.spec_bytes().len() == 16,
        Uuid::spec_from_bytes(id.spec_bytes()) == id,
{
    crate::storage::wire::lemma_be_bytes_len(id.value as nat, 16);
    lemma_pow256_values();
    crate::storage::wire::lemma_be_roundtrip(id.value as nat, 16);
}

/// Identifiers are ordered by value as their sixteen bytes are ordered as
/// byte strings.
pub proof fn lemma_uuid_order_is_that_of_bytes(a: Uuid, b: Uuid)
    ensures
        a.value < b.value <==> crate::storage::wire::lex_less(a.spec_bytes(), b.spec_bytes()),
{
    lemma_uuid_bytes_roundtrip(a);
    lemma_uuid_bytes_roundtrip(b);
    lemma_pow256_values();
    crate::storage::wire::lemma_be_roundtrip(a.value as nat, 16);
    crate::storage::wire::lemma_be_roundtrip(b.value as nat, 16);
    crate::storage::wire::lemma_be_order_is_lexicographic(a.spec_bytes(), b.spec_bytes());
}

/// A 64-bit digest with its halves exchanged.
pub open spec fn rotate_half(digest: u64) -> nat {
    ((digest % 0x1_0000_0000) * 0x1_0000_0000 + digest / 0x1_0000_0000) as nat
}

/// The sixteen bytes made of a digest and of the digest with its halves
/// exchanged, each least significant byte first.
pub open spec fn digest_bytes(digest: u64) -> Seq<u8> {
    le_bytes(digest as nat, 8) + le_bytes(rotate_half(digest), 8)
}

/// The identifier that a digest stands for.
pub open spec fn uuid_of_digest(digest: u64) -> Uuid {
    Uuid::spec_from_bytes(digest_bytes(digest))
}

/// What hashing a string feeds to the hasher: its bytes, then one `0xff`.
pub open spec fn str_writes(text: Seq<char>) -> Seq<Seq<u8>> {
    seq![vstd::utf8::encode_utf8(text), seq![0xffu8]]
}

/// What hashing an identifier feeds to the hasher: the length sixteen as eight
/// bytes, then the sixteen bytes.
pub open spec fn uuid_writes(id: Uuid) -> Seq<Seq<u8>> {
    seq![le_bytes(16, 8), id.spec_bytes()]
}

/// The identifier derived from a string key.
pub open spec fn derived_uuid(text: Seq<char>) -> Uuid {
    uuid_of_digest(DefaultHasher::spec_finish(str_writes(text)))
}

/// The identifier derived from another identifier.
pub open spec fn rederived_uuid(id: Uuid) -> Uuid {
    uuid_of_digest(DefaultHasher::spec_finish(uuid_writes(id)))
}

/// A value that can be hashed into an identifier.
pub trait Fingerprint {
    /// The byte strings that the value feeds to the hasher, in order.
    spec fn hasher_writes(&self) -> Seq<Seq<u8>>;

    /// Feeds the value to the hasher.
    fn feed(&self, state: &mut DefaultHasher)
        ensures
            final(state)@ == old(state)@ + self.hasher_writes(),
    ;
}

impl Fingerprint for str {
    open spec fn hasher_writes(&self) -> Seq<Seq<u8>> {
        str_writes(self@)
    }

    fn feed(&self, state: &mut DefaultHasher) {
        state.write(self.as_bytes());
        let mut end: Vec<u8> = Vec::new();
        end.push(0xffu8);
        state.write(end.as_slice());
        proof {
            assert(end@ =~= seq![0xffu8]);
            assert(state@ =~= old(state)@ + str_writes(self@));
        }
    }
}

impl Fingerprint for String {
    open spec fn hasher_writes(&self) -> Seq<Seq<u8>> {
        str_writes(self@)
    }

    fn feed(&self, state: &mut DefaultHasher) {
        self.as_str().feed(state);
    }
}

impl Fingerprint for Uuid {
    open spec fn hasher_writes(&self) -> Seq<Seq<u8>> {
        uuid_writes(*self)
    }

    fn feed(&self, state: &mut DefaultHasher) {
        let mut prefix: Vec<u8> = Vec::new();
        push_le(&mut prefix, 16, 8);
        state.write(prefix.as_slice());
        let bytes = self.to_bytes();
        state.write(bytes.as_slice());
        proof {
            assert(prefix@ =~= le_bytes(16, 8));
            assert(state@ =~= old(state)@ + uuid_writes(*self));
        }
    }
}

/// Derives an identifier from a hashable value: the value's 64-bit digest,
/// followed by the same digest with its halves exchanged. Equal values give
/// equal identifiers.
pub fn generate_deterministic_uuid<T: Fingerprint + ?Sized>(value: &T) -> (id: Uuid)
    ensures
        id == uuid_of_digest(DefaultHasher::spec_finish(value.hasher_writes())),
{
    let mut state = DefaultHasher::new();
    value.feed(&mut state);
    let digest: u64 = state.finish();
    let rotated: u64 = (digest % 0x1_0000_0000) * 0x1_0000_0000 + digest / 0x1_0000_0000;
    let mut bytes: Vec<u8> = Vec::new();
    push_le(&mut bytes, digest, 8);
    push_le(&mut bytes, rotated, 8);
    proof {
        assert(state@ =~= value.hasher_writes());
        lemma_le_bytes_len(digest as nat, 8);
        lemma_le_bytes_len(rotated as nat, 8);
        assert(bytes@ =~= digest_bytes(digest));
        assert(bytes@.subrange(0, 16) =~= bytes@);
        lemma_be_value_bound(bytes@);
        lemma_pow256_values();
    }
    let value = read_be(bytes.as_slice(), 0, 16);
    Uuid { value }
}

} // verus!
