//! Fixed-width words as byte sequences, in little- or big-endian order.
//!
//! Every multi-byte value that crosses the wire — a header field or one
//! audio sample — is laid out by these functions and read back by their
//! inverses, so the round-trip lemmas here carry the codec's correctness.

use vstd::prelude::*;

verus! {

/// 256 raised to `n`: how many values an `n`-byte word can take.
pub open spec fn pow256(n: nat) -> nat
    decreases n,
{
    if n == 0 {
        1
    } else {
        256 * pow256((n - 1) as nat)
    }
}

/// The concrete powers of 256 that the supported sample widths reach.
pub proof fn lemma_pow256_values()
    ensures
        pow256(0) == 1,
        pow256(1) == 0x100,
        pow256(2) == 0x1_0000,
        pow256(4) == 0x1_0000_0000,
        pow256(8) == 0x1_0000_0000_0000_0000,
{
    reveal_with_fuel(pow256, 9);
}

pub proof fn lemma_pow256_mono(m: nat, n: nat)
    requires
        m <= n,
    ensures
        pow256(m) <= pow256(n),
    decreases n,
{
    if m < n {
        lemma_pow256_mono(m, (n - 1) as nat);
    }
}

/// The value of `bytes` read little-endian: the first byte is least significant.
pub open spec fn le_value(bytes: Seq<u8>) -> nat
    decreases bytes.len(),
{
    if bytes.len() == 0 {
        0
    } else {
        bytes.first() as nat + 256 * le_value(bytes.drop_first())
    }
}

/// The value of `bytes` read big-endian: the last byte is least significant.
pub open spec fn be_value(bytes: Seq<u8>) -> nat
    decreases bytes.len(),
{
    if bytes.len() == 0 {
        0
    } else {
        256 * be_value(bytes.drop_last()) + bytes.last() as nat
    }
}

/// The `width`-byte little-endian encoding of `v`.
pub open spec fn le_bytes(v: nat, width: nat) -> Seq<u8>
    decreases width,
{
    if width == 0 {
        Seq::empty()
    } else {
        seq![(v % 256) as u8] + le_bytes(v / 256, (width - 1) as nat)
    }
}

/// The `width`-byte big-endian encoding of `v`.
pub open spec fn be_bytes(v: nat, width: nat) -> Seq<u8>
    decreases width,
{
    if width == 0 {
        Seq::empty()
    } else {
        be_bytes(v / 256, (width - 1) as nat) + seq![(v % 256) as u8]
    }
}

pub proof fn lemma_le_bytes_len(v: nat, width: nat)
    ensures
        le_bytes(v, width).len() == width,
    decreases width,
{
    if width > 0 {
        lemma_le_bytes_len(v / 256, (width - 1) as nat);
    }
}

pub proof fn lemma_be_bytes_len(v: nat, width: nat)
    ensures
        be_bytes(v, width).len() == width,
    decreases width,
{
    if width > 0 {
        lemma_be_bytes_len(v / 256, (width - 1) as nat);
    }
}

pub proof fn lemma_le_value_bound(bytes: Seq<u8>)
    ensures
        le_value(bytes) < pow256(bytes.len()),
    decreases bytes.len(),
{
    if bytes.len() > 0 {
        lemma_le_value_bound(bytes.drop_first());
    }
}

/// Encoding then decoding little-endian gives the value back.
pub proof fn lemma_le_round_trip(v: nat, width: nat)
    requires
        v < pow256(width),
    ensures
        le_value(le_bytes(v, width)) == v,
    decreases width,
{
    if width > 0 {
        lemma_le_round_trip(v / 256, (width - 1) as nat);
        lemma_le_bytes_len(v / 256, (width - 1) as nat);
        assert(le_bytes(v, width).drop_first() =~= le_bytes(v / 256, (width - 1) as nat));
    }
}

/// Encoding then decoding big-endian gives the value back.
pub proof fn lemma_be_round_trip(v: nat, width: nat)
    requires
        v < pow256(width),
    ensures
        be_value(be_bytes(v, width)) == v,
    decreases width,
{
    if width > 0 {
        lemma_be_round_trip(v / 256, (width - 1) as nat);
        lemma_be_bytes_len(v / 256, (width - 1) as nat);
        assert(be_bytes(v, width).drop_last() =~= be_bytes(v / 256, (width - 1) as nat));
    }
}

/// Reads the `width` bytes at `start` as a little-endian value.
pub fn read_le(bytes: &Vec<u8>, start: usize, width: usize) -> (v: u64)
    requires
        start + width <= bytes@.len(),
        width <= 8,
    ensures
        v as nat == le_value(bytes@.subrange(start as int, start as int + width as int)),
        (v as nat) < pow256(width as nat),
    decreases width,
{
    proof {
        lemma_pow256_values();
    }
    let _n = bytes.len();
    if width == 0 {
        assert(bytes@.subrange(start as int, start as int) =~= Seq::<u8>::empty());
        0
    } else {
        let rest = read_le(bytes, start + 1, width - 1);
        proof {
            lemma_pow256_mono((width - 1) as nat, 7);
            let whole = bytes@.subrange(start as int, start as int + width as int);
            assert(whole.drop_first() =~= bytes@.subrange(
                start as int + 1,
                start as int + width as int,
            ));
            lemma_pow256_mono(width as nat, 8);
        }
        bytes[start] as u64 + 256 * rest
    }
}

/// Reads the `width` bytes at `start` as a big-endian value.
pub fn read_be(bytes: &Vec<u8>, start: usize, width: usize) -> (v: u64)
    requires
        start + width <= bytes@.len(),
        width <= 8,
    ensures
        v as nat == be_value(bytes@.subrange(start as int, start as int + width as int)),
        (v as nat) < pow256(width as nat),
    decreases width,
{
    proof {
        lemma_pow256_values();
    }
    let _n = bytes.len();
    if width == 0 {
        assert(bytes@.subrange(start as int, start as int) =~= Seq::<u8>::empty());
        0
    } else {
        let high = read_be(bytes, start, width - 1);
        proof {
            lemma_pow256_mono((width - 1) as nat, 7);
            let whole = bytes@.subrange(start as int, start as int + width as int);
            assert(whole.drop_last() =~= bytes@.subrange(
                start as int,
                start as int + width as int - 1,
            ));
            lemma_pow256_mono(width as nat, 8);
        }
        256 * high + bytes[start + width - 1] as u64
    }
}

/// Appends the `width`-byte little-endian encoding of `v` to `out`.
pub fn push_le(out: &mut Vec<u8>, v: u64, width: usize)
    ensures
        final(out)@ == old(out)@ + le_bytes(v as nat, width as nat),
    decreases width,
{
    if width == 0 {
        assert(out@ =~= out@ + le_bytes(v as nat, 0));
    } else {
        let ghost before = out@;
        out.push((v % 256) as u8);
        push_le(out, v / 256, width - 1);
        proof {
            assert(out@ =~= before + le_bytes(v as nat, width as nat));
        }
    }
}

/// Appends the `width`-byte big-endian encoding of `v` to `out`.
pub fn push_be(out: &mut Vec<u8>, v: u64, width: usize)
    ensures
        final(out)@ == old(out)@ + be_bytes(v as nat, width as nat),
    decreases width,
{
    if width == 0 {
        assert(out@ =~= out@ + be_bytes(v as nat, 0));
    } else {
        let ghost before = out@;
        push_be(out, v / 256, width - 1);
        out.push((v % 256) as u8);
        proof {
            assert(out@ =~= before + be_bytes(v as nat, width as nat));
        }
    }
}

/// Copies the bytes of `[start, end)` into a vector of their own.
pub fn copy_range(bytes: &Vec<u8>, start: usize, end: usize) -> (r: Vec<u8>)
    requires
        start <= end,
        end <= bytes@.len(),
    ensures
        r@ == bytes@.subrange(start as int, end as int),
{
    let mut out: Vec<u8> = Vec::new();
    let mut i: usize = start;
    while i < end
        invariant
            start <= i <= end,
            end <= bytes@.len(),
            out@ == bytes@.subrange(start as int, i as int),
        decreases end - i,
    {
        out.push(bytes[i]);
        proof {
            assert(bytes@.subrange(start as int, i as int + 1) =~= bytes@.subrange(
                start as int,
                i as int,
            ).push(bytes@[i as int]));
        }
        i = i + 1;
    }
    proof {
        assert(out@ =~= bytes@.subrange(start as int, end as int));
    }
    out
}

} // verus!
