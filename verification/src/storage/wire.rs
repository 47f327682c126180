//! Fixed-width integers on the wire: little-endian for lengths, timestamps and
//! bit patterns, big-endian for the sixteen bytes of an identifier.
//!
//! Everything here is stated over natural numbers and byte sequences, so that
//! the record codec can reason with plain arithmetic.

use vstd::prelude::*;

verus! {

/// `256` to the power `n`.
pub open spec fn pow256(n: nat) -> nat
    decreases n,
{
    if n == 0 {
        1
    } else {
        256 * pow256((n - 1) as nat)
    }
}

/// The number that `s` spells when its first byte is the least significant.
pub open spec fn le_value(s: Seq<u8>) -> nat
    decreases s.len(),
{
    if s.len() == 0 {
        0
    } else {
        s[0] as nat + 256 * le_value(s.drop_first())
    }
}

/// The `n` low-order bytes of `v`, least significant first.
pub open spec fn le_bytes(v: nat, n: nat) -> Seq<u8>
    decreases n,
{
    if n == 0 {
        Seq::empty()
    } else {
        seq![(v % 256) as u8] + le_bytes(v / 256, (n - 1) as nat)
    }
}

/// The number that `s` spells when its first byte is the most significant.
pub open spec fn be_value(s: Seq<u8>) -> nat
    decreases s.len(),
{
    if s.len() == 0 {
        0
    } else {
        be_value(s.drop_last()) * 256 + s.last() as nat
    }
}

/// The `n` low-order bytes of `v`, most significant first.
pub open spec fn be_bytes(v: nat, n: nat) -> Seq<u8>
    decreases n,
{
    if n == 0 {
        Seq::empty()
    } else {
        be_bytes(v / 256, (n - 1) as nat).push((v % 256) as u8)
    }
}

pub proof fn lemma_pow256_values()
    ensures
        pow256(0) == 1,
        pow256(1) == 0x100,
        pow256(2) == 0x1_0000,
        pow256(4) == 0x1_0000_0000,
        pow256(8) == 0x1_0000_0000_0000_0000,
        pow256(16) == 0x1_0000_0000_0000_0000_0000_0000_0000_0000,
{
    reveal_with_fuel(pow256, 5);
    assert(pow256(4) == 0x1_0000_0000);
    assert(pow256(8) == 0x1_0000_0000 * pow256(4));
    assert(pow256(12) == 0x1_0000_0000 * pow256(8));
    assert(pow256(16) == 0x1_0000_0000 * pow256(12));
}

pub proof fn lemma_pow256_monotonic(a: nat, b: nat)
    requires
        a <= b,
    ensures
        pow256(a) <= pow256(b),
        pow256(a) >= 1,
    decreases b,
{
    if b == 0 {
    } else if a == b {
        lemma_pow256_monotonic((a - 1) as nat, (b - 1) as nat);
    } else {
        lemma_pow256_monotonic(a, (b - 1) as nat);
    }
}

pub proof fn lemma_le_bytes_len(v: nat, n: nat)
    ensures
        le_bytes(v, n).len() == n,
    decreases n,
{
    if n > 0 {
        lemma_le_bytes_len(v / 256, (n - 1) as nat);
    }
}

pub proof fn lemma_le_value_bound(s: Seq<u8>)
    ensures
        le_value(s) < pow256(s.len()),
    decreases s.len(),
{
    if s.len() > 0 {
        lemma_le_value_bound(s.drop_first());
    }
}

/// Reading back what was written gives the number, as long as it fits.
pub proof fn lemma_le_roundtrip(v: nat, n: nat)
    requires
        v < pow256(n),
    ensures
        le_value(le_bytes(v, n)) == v,
    decreases n,
{
    if n > 0 {
        let rest = le_bytes(v / 256, (n - 1) as nat);
        lemma_le_roundtrip(v / 256, (n - 1) as nat);
        assert(le_bytes(v, n).drop_first() =~= rest);
    }
}

pub proof fn lemma_be_bytes_len(v: nat, n: nat)
    ensures
        be_bytes(v, n).len() == n,
    decreases n,
{
    if n > 0 {
        lemma_be_bytes_len(v / 256, (n - 1) as nat);
    }
}

pub proof fn lemma_be_value_bound(s: Seq<u8>)
    ensures
        be_value(s) < pow256(s.len()),
    decreases s.len(),
{
    if s.len() > 0 {
        lemma_be_value_bound(s.drop_last());
    }
}

/// Reading back what was written gives the number, as long as it fits.
pub proof fn lemma_be_roundtrip(v: nat, n: nat)
    requires
        v < pow256(n),
    ensures
        be_value(be_bytes(v, n)) == v,
    decreases n,
{
    if n > 0 {
        let rest = be_bytes(v / 256, (n - 1) as nat);
        lemma_be_roundtrip(v / 256, (n - 1) as nat);
        assert(be_bytes(v, n).drop_last() =~= rest);
    }
}

/// Writing back what was read gives the bytes.
pub proof fn lemma_be_bytes_of_value(s: Seq<u8>)
    ensures
        be_bytes(be_value(s), s.len()) == s,
    decreases s.len(),
{
    if s.len() > 0 {
        let v = be_value(s);
        let rest = s.drop_last();
        lemma_be_bytes_of_value(rest);
        assert(v % 256 == s.last() as nat);
        assert(v / 256 == be_value(rest));
        assert(be_bytes(v, s.len()) =~= s);
    }
}

/// Whether `a` comes before `b` in the order of byte strings: at the first
/// place where they differ, `a` has the smaller byte.
pub open spec fn lex_less(a: Seq<u8>, b: Seq<u8>) -> bool {
    exists|k: int|
        0 <= k < a.len() && k < b.len() && #[trigger] a.take(k) == b.take(k) && a[k] < b[k]
}

/// Byte strings of one length that spell the same number, most significant
/// byte first, are the same.
pub proof fn lemma_be_value_injective(a: Seq<u8>, b: Seq<u8>)
    requires
        a.len() == b.len(),
        be_value(a) == be_value(b),
    ensures
        a == b,
{
    lemma_be_bytes_of_value(a);
    lemma_be_bytes_of_value(b);
}

/// Among byte strings of one length, read most significant byte first, the
/// smaller number is the string that comes first.
pub proof fn lemma_be_order_is_lexicographic(a: Seq<u8>, b: Seq<u8>)
    requires
        a.len() == b.len(),
    ensures
        be_value(a) < be_value(b) <==> lex_less(a, b),
    decreases a.len(),
{
    if a.len() > 0 {
        let n = a.len() as int;
        let a0 = a.drop_last();
        let b0 = b.drop_last();
        lemma_be_order_is_lexicographic(a0, b0);
        if be_value(a) < be_value(b) {
            if be_value(a0) < be_value(b0) {
                let k = choose|k: int|
                    0 <= k < a0.len() && k < b0.len() && #[trigger] a0.take(k) == b0.take(k)
                        && a0[k] < b0[k];
                assert(a.take(k) =~= a0.take(k));
                assert(b.take(k) =~= b0.take(k));
                assert(a[k] == a0[k] && b[k] == b0[k]);
            } else {
                assert(be_value(a0) == be_value(b0));
                lemma_be_value_injective(a0, b0);
                assert(a.take(n - 1) =~= a0);
                assert(b.take(n - 1) =~= b0);
                assert(a[n - 1] < b[n - 1]);
            }
        }
        if lex_less(a, b) {
            let k = choose|k: int|
                0 <= k < a.len() && k < b.len() && #[trigger] a.take(k) == b.take(k) && a[k]
                    < b[k];
            if k < n - 1 {
                assert(a0.take(k) =~= a.take(k));
                assert(b0.take(k) =~= b.take(k));
                assert(a0[k] == a[k] && b0[k] == b[k]);
                assert(lex_less(a0, b0));
            } else {
                assert(a0 =~= a.take(k));
                assert(b0 =~= b.take(k));
            }
        }
    }
}

/// Appends the `n` low-order bytes of `v`, least significant first.
pub fn push_le(out: &mut Vec<u8>, v: u64, n: usize)
    requires
        n <= 8,
    ensures
        final(out)@ == old(out)@ + le_bytes(v as nat, n as nat),
{
    let mut rest: u64 = v;
    let mut i: usize = 0;
    while i < n
        invariant
            i <= n,
            old(out)@ + le_bytes(v as nat, n as nat) == out@ + le_bytes(rest as nat, (n - i) as nat),
        decreases n - i,
    {
        let ghost before = out@;
        out.push((rest % 256) as u8);
        proof {
            let tail = le_bytes((rest / 256) as nat, (n - i - 1) as nat);
            assert(le_bytes(rest as nat, (n - i) as nat) == seq![(rest % 256) as u8] + tail);
            assert(before + (seq![(rest % 256) as u8] + tail) =~= out@ + tail);
        }
        rest = rest / 256;
        i = i + 1;
    }
    proof {
        assert(out@ + le_bytes(rest as nat, 0) =~= out@);
    }
}

/// Reads `n` bytes at `pos`, least significant first.
pub fn read_le(data: &[u8], pos: usize, n: usize) -> (v: u64)
    requires
        n <= 8,
        pos + n <= data@.len(),
    ensures
        v as nat == le_value(data@.subrange(pos as int, pos + n)),
{
    let total: usize = data.len();
    let mut acc: u64 = 0;
    let mut i: usize = n;
    while i > 0
        invariant
            i <= n <= 8,
            pos + n <= total == data@.len(),
            acc as nat == le_value(data@.subrange(pos + i, pos + n)),
        decreases i,
    {
        proof {
            let cur = data@.subrange(pos + i, pos + n);
            let next = data@.subrange(pos + i - 1, pos + n);
            lemma_le_value_bound(cur);
            lemma_pow256_monotonic(cur.len(), 7);
            lemma_pow256_values();
            reveal_with_fuel(pow256, 8);
            assert(next.drop_first() =~= cur);
        }
        i = i - 1;
        acc = acc * 256 + data[pos + i] as u64;
    }
    acc
}

/// Appends the `n` low-order bytes of `v`, most significant first.
pub fn push_be(out: &mut Vec<u8>, v: u128, n: usize)
    requires
        n <= 16,
    ensures
        final(out)@ == old(out)@ + be_bytes(v as nat, n as nat),
    decreases n,
{
    if n > 0 {
        push_be(out, v / 256, n - 1);
        let ghost before = out@;
        out.push((v % 256) as u8);
        proof {
            let head = be_bytes((v / 256) as nat, (n - 1) as nat);
            assert(before.push((v % 256) as u8) =~= old(out)@ + head.push((v % 256) as u8));
        }
    } else {
        proof {
            assert(out@ + be_bytes(v as nat, 0) =~= out@);
        }
    }
}

/// Reads `n` bytes at `pos`, most significant first.
pub fn read_be(data: &[u8], pos: usize, n: usize) -> (v: u128)
    requires
        n <= 16,
        pos + n <= data@.len(),
    ensures
        v as nat == be_value(data@.subrange(pos as int, pos + n)),
{
    let total: usize = data.len();
    let mut acc: u128 = 0;
    let mut i: usize = 0;
    while i < n
        invariant
            i <= n <= 16,
            pos + n <= total == data@.len(),
            acc as nat == be_value(data@.subrange(pos as int, pos + i)),
        decreases n - i,
    {
        proof {
            let cur = data@.subrange(pos as int, pos + i);
            let next = data@.subrange(pos as int, pos + i + 1);
            lemma_be_value_bound(cur);
            lemma_pow256_monotonic(cur.len(), 15);
            lemma_pow256_values();
            reveal_with_fuel(pow256, 16);
            assert(next.drop_last() =~= cur);
        }
        acc = acc * 256 + data[pos + i] as u128;
        i = i + 1;
    }
    acc
}

} // verus!
