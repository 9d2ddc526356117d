//! The sample abstraction: supported numeric sample kinds and the lossless
//! conversion between samples and raw bytes in a declared byte order.
//!
//! A sample travels through the library as the raw bit pattern of its wire
//! word, held in a `u64` that fits the format's byte width. Interpreting the
//! pattern as a signed integer or a floating-point number is the audio
//! device's business at the unverified edge; the transport only has to carry
//! the bytes through unchanged, which is exactly what these contracts state.

use vstd::prelude::*;

use crate::bytes::be_bytes;
use crate::bytes::be_value;
use crate::bytes::le_bytes;
use crate::bytes::le_value;
use crate::bytes::lemma_be_bytes_len;
use crate::bytes::lemma_be_round_trip;
use crate::bytes::lemma_le_bytes_len;
use crate::bytes::lemma_le_round_trip;
use crate::bytes::pow256;
use crate::bytes::push_be;
use crate::bytes::push_le;
use crate::bytes::read_be;
use crate::bytes::read_le;
use crate::errors::SchemaError;

verus! {

/// The numeric sample kinds a stream can carry.
#[derive(Clone, Copy, Debug, PartialEq, Eq, Structural)]
pub enum SampleFormat {
    I8,
    I16,
    I32,
    I64,
    U8,
    U16,
    U32,
    U64,
    F32,
    F64,
}

/// How the bytes of one multi-byte sample are ordered on the wire.
#[derive(Clone, Copy, Debug, PartialEq, Eq, Structural)]
pub enum ByteOrder {
    Little,
    Big,
}

/// The byte width of one sample of `format`.
pub open spec fn spec_width(format: SampleFormat) -> nat {
    match format {
        SampleFormat::I8 => 1,
        SampleFormat::I16 => 2,
        SampleFormat::I32 => 4,
        SampleFormat::I64 => 8,
        SampleFormat::U8 => 1,
        SampleFormat::U16 => 2,
        SampleFormat::U32 => 4,
        SampleFormat::U64 => 8,
        SampleFormat::F32 => 4,
        SampleFormat::F64 => 8,
    }
}

/// `raw` is a bit pattern that one sample of `format` can hold.
pub open spec fn fits(raw: u64, format: SampleFormat) -> bool {
    (raw as nat) < pow256(spec_width(format))
}

pub fn sample_width(format: SampleFormat) -> (w: usize)
    ensures
        w as nat == spec_width(format),
        1 <= w <= 8,
{
    match format {
        SampleFormat::I8 => 1,
        SampleFormat::I16 => 2,
        SampleFormat::I32 => 4,
        SampleFormat::I64 => 8,
        SampleFormat::U8 => 1,
        SampleFormat::U16 => 2,
        SampleFormat::U32 => 4,
        SampleFormat::U64 => 8,
        SampleFormat::F32 => 4,
        SampleFormat::F64 => 8,
    }
}

/// The wire code of `format`.
pub open spec fn spec_format_code(format: SampleFormat) -> int {
    match format {
        SampleFormat::I8 => 0,
        SampleFormat::I16 => 1,
        SampleFormat::I32 => 2,
        SampleFormat::I64 => 3,
        SampleFormat::U8 => 4,
        SampleFormat::U16 => 5,
        SampleFormat::U32 => 6,
        SampleFormat::U64 => 7,
        SampleFormat::F32 => 8,
        SampleFormat::F64 => 9,
    }
}

/// The format a wire code names, if any.
pub open spec fn spec_decode_format(code: int) -> Option<SampleFormat> {
    if code == 0 {
        Some(SampleFormat::I8)
    } else if code == 1 {
        Some(SampleFormat::I16)
    } else if code == 2 {
        Some(SampleFormat::I32)
    } else if code == 3 {
        Some(SampleFormat::I64)
    } else if code == 4 {
        Some(SampleFormat::U8)
    } else if code == 5 {
        Some(SampleFormat::U16)
    } else if code == 6 {
        Some(SampleFormat::U32)
    } else if code == 7 {
        Some(SampleFormat::U64)
    } else if code == 8 {
        Some(SampleFormat::F32)
    } else if code == 9 {
        Some(SampleFormat::F64)
    } else {
        None
    }
}

/// Every format comes back unchanged from its own wire code.
pub proof fn lemma_format_code_round_trip(format: SampleFormat)
    ensures
        spec_decode_format(spec_format_code(format)) == Some(format),
{
}

pub fn encode_sample_format(format: &SampleFormat) -> (code: i32)
    ensures
        code as int == spec_format_code(*format),
{
    match format {
        SampleFormat::I8 => 0,
        SampleFormat::I16 => 1,
        SampleFormat::I32 => 2,
        SampleFormat::I64 => 3,
        SampleFormat::U8 => 4,
        SampleFormat::U16 => 5,
        SampleFormat::U32 => 6,
        SampleFormat::U64 => 7,
        SampleFormat::F32 => 8,
        SampleFormat::F64 => 9,
    }
}

pub fn decode_sample_format(code: i32) -> (format: Option<SampleFormat>)
    ensures
        format == spec_decode_format(code as int),
{
    match code {
        0 => Some(SampleFormat::I8),
        1 => Some(SampleFormat::I16),
        2 => Some(SampleFormat::I32),
        3 => Some(SampleFormat::I64),
        4 => Some(SampleFormat::U8),
        5 => Some(SampleFormat::U16),
        6 => Some(SampleFormat::U32),
        7 => Some(SampleFormat::U64),
        8 => Some(SampleFormat::F32),
        9 => Some(SampleFormat::F64),
        _ => None,
    }
}

/// The wire code of `order`.
pub open spec fn spec_order_code(order: ByteOrder) -> int {
    match order {
        ByteOrder::Little => 0,
        ByteOrder::Big => 1,
    }
}

/// The byte order a wire code names, if any.
pub open spec fn spec_decode_order(code: int) -> Option<ByteOrder> {
    if code == 0 {
        Some(ByteOrder::Little)
    } else if code == 1 {
        Some(ByteOrder::Big)
    } else {
        None
    }
}

pub fn encode_byte_order(order: &ByteOrder) -> (code: u8)
    ensures
        code as int == spec_order_code(*order),
{
    match order {
        ByteOrder::Little => 0,
        ByteOrder::Big => 1,
    }
}

pub fn decode_byte_order(code: u8) -> (order: Option<ByteOrder>)
    ensures
        order == spec_decode_order(code as int),
{
    match code {
        0 => Some(ByteOrder::Little),
        1 => Some(ByteOrder::Big),
        _ => None,
    }
}

/// The value of a word read in `order`.
pub open spec fn word_value(order: ByteOrder, b: Seq<u8>) -> nat {
    match order {
        ByteOrder::Little => le_value(b),
        ByteOrder::Big => be_value(b),
    }
}

/// The `width`-byte encoding of `v` in `order`.
pub open spec fn word_bytes(order: ByteOrder, v: nat, width: nat) -> Seq<u8> {
    match order {
        ByteOrder::Little => le_bytes(v, width),
        ByteOrder::Big => be_bytes(v, width),
    }
}

/// The samples that `payload` carries: consecutive `width`-byte words read
/// in `order`, as many whole words as the payload holds.
pub open spec fn decoded_payload(payload: Seq<u8>, width: nat, order: ByteOrder) -> Seq<u64>
    decreases payload.len(),
{
    if width == 0 || payload.len() < width {
        Seq::empty()
    } else {
        seq![word_value(order, payload.take(width as int)) as u64] + decoded_payload(
            payload.skip(width as int),
            width,
            order,
        )
    }
}

/// The byte sequence that carries `samples`, each as a `width`-byte word in
/// `order`, in sample order.
pub open spec fn encoded_payload(samples: Seq<u64>, width: nat, order: ByteOrder) -> Seq<u8>
    decreases samples.len(),
{
    if samples.len() == 0 {
        Seq::empty()
    } else {
        word_bytes(order, samples.first() as nat, width) + encoded_payload(
            samples.drop_first(),
            width,
            order,
        )
    }
}

pub proof fn lemma_word_bytes_len(order: ByteOrder, v: nat, width: nat)
    ensures
        word_bytes(order, v, width).len() == width,
{
    lemma_le_bytes_len(v, width);
    lemma_be_bytes_len(v, width);
}

pub proof fn lemma_encoded_payload_len(samples: Seq<u64>, width: nat, order: ByteOrder)
    ensures
        encoded_payload(samples, width, order).len() == samples.len() * width,
    decreases samples.len(),
{
    if samples.len() == 0 {
        assert(samples.len() * width == 0);
    } else {
        lemma_encoded_payload_len(samples.drop_first(), width, order);
        lemma_word_bytes_len(order, samples.first() as nat, width);
        assert(width + (samples.len() - 1) * width == samples.len() * width) by (nonlinear_arith);
    }
}

/// Appending one sample appends one word.
pub proof fn lemma_encoded_payload_push(
    samples: Seq<u64>,
    width: nat,
    order: ByteOrder,
    raw: u64,
)
    ensures
        encoded_payload(samples.push(raw), width, order) == encoded_payload(samples, width, order)
            + word_bytes(order, raw as nat, width),
    decreases samples.len(),
{
    if samples.len() == 0 {
        assert(samples =~= Seq::<u64>::empty());
        assert(samples.push(raw).drop_first() =~= samples);
        assert(samples.push(raw).first() == raw);
        assert(encoded_payload(samples.push(raw), width, order) =~= encoded_payload(
            samples,
            width,
            order,
        ) + word_bytes(order, raw as nat, width));
    } else {
        assert(samples.push(raw).drop_first() =~= samples.drop_first().push(raw));
        assert(samples.push(raw).first() == samples.first());
        lemma_encoded_payload_push(samples.drop_first(), width, order, raw);
        assert(encoded_payload(samples.push(raw), width, order) == word_bytes(
            order,
            samples.first() as nat,
            width,
        ) + (encoded_payload(samples.drop_first(), width, order) + word_bytes(
            order,
            raw as nat,
            width,
        )));
        assert(encoded_payload(samples.push(raw), width, order) =~= encoded_payload(
            samples,
            width,
            order,
        ) + word_bytes(order, raw as nat, width));
    }
}

/// The sample abstraction's losslessness: converting samples to a raw byte
/// sequence in either byte order and back gives the samples unchanged, for
/// every sample that fits its format's width.
pub proof fn lemma_payload_round_trip(samples: Seq<u64>, width: nat, order: ByteOrder)
    requires
        1 <= width <= 8,
        forall|i: int| 0 <= i < samples.len() ==> (samples[i] as nat) < pow256(width),
    ensures
        decoded_payload(encoded_payload(samples, width, order), width, order) == samples,
    decreases samples.len(),
{
    if samples.len() == 0 {
        assert(decoded_payload(encoded_payload(samples, width, order), width, order)
            =~= samples);
    } else {
        let first = samples.first();
        let word = word_bytes(order, first as nat, width);
        let rest = encoded_payload(samples.drop_first(), width, order);
        lemma_word_bytes_len(order, first as nat, width);
        lemma_encoded_payload_len(samples.drop_first(), width, order);
        assert((word + rest).take(width as int) =~= word);
        assert((word + rest).skip(width as int) =~= rest);
        match order {
            ByteOrder::Little => lemma_le_round_trip(first as nat, width),
            ByteOrder::Big => lemma_be_round_trip(first as nat, width),
        }
        lemma_payload_round_trip(samples.drop_first(), width, order);
        assert(decoded_payload(encoded_payload(samples, width, order), width, order)
            =~= samples);
    }
}

/// Decodes `payload` into the samples it carries. A payload whose length is
/// not a whole number of samples is rejected outright: nothing is decoded
/// from it.
pub fn decode_payload(payload: &Vec<u8>, format: SampleFormat, order: ByteOrder) -> (r: Result<
    Vec<u64>,
    SchemaError,
>)
    ensures
        match r {
            Ok(samples) => {
                &&& payload@.len() % spec_width(format) == 0
                &&& samples@ == decoded_payload(payload@, spec_width(format), order)
                &&& forall|i: int| 0 <= i < samples@.len() ==> fits(samples@[i], format)
            },
            Err(e) => {
                &&& e == SchemaError::LengthMismatch
                &&& payload@.len() % spec_width(format) != 0
            },
        },
{
    let w = sample_width(format);
    if payload.len() % w != 0 {
        return Err(SchemaError::LengthMismatch);
    }
    let mut out: Vec<u64> = Vec::new();
    let mut off: usize = 0;
    proof {
        assert(payload@.skip(0) =~= payload@);
        assert(Seq::<u64>::empty() + decoded_payload(payload@, w as nat, order)
            =~= decoded_payload(payload@, w as nat, order));
    }
    while payload.len() - off >= w
        invariant
            w as nat == spec_width(format),
            1 <= w <= 8,
            off <= payload@.len(),
            decoded_payload(payload@, w as nat, order) == out@ + decoded_payload(
                payload@.skip(off as int),
                w as nat,
                order,
            ),
            forall|i: int| 0 <= i < out@.len() ==> fits(out@[i], format),
        decreases payload@.len() - off,
    {
        let raw = match order {
            ByteOrder::Little => read_le(payload, off, w),
            ByteOrder::Big => read_be(payload, off, w),
        };
        proof {
            let suffix = payload@.skip(off as int);
            assert(suffix.take(w as int) =~= payload@.subrange(
                off as int,
                off as int + w as int,
            ));
            assert(suffix.skip(w as int) =~= payload@.skip(off as int + w as int));
            assert(out@.push(raw) + decoded_payload(payload@.skip(off as int + w as int), w as nat, order)
                =~= out@ + decoded_payload(payload@.skip(off as int), w as nat, order));
        }
        out.push(raw);
        off = off + w;
    }
    proof {
        assert(decoded_payload(payload@.skip(off as int), w as nat, order) =~= Seq::<u64>::empty());
        assert(out@ =~= decoded_payload(payload@, w as nat, order));
    }
    Ok(out)
}

/// Encodes `samples` as consecutive `width`-byte words in `order`.
pub fn encode_payload(samples: &Vec<u64>, format: SampleFormat, order: ByteOrder) -> (r: Vec<u8>)
    ensures
        r@ == encoded_payload(samples@, spec_width(format), order),
{
    let w = sample_width(format);
    let mut out: Vec<u8> = Vec::new();
    let mut i: usize = 0;
    while i < samples.len()
        invariant
            w as nat == spec_width(format),
            i <= samples@.len(),
            out@ == encoded_payload(samples@.take(i as int), w as nat, order),
        decreases samples@.len() - i,
    {
        let raw = samples[i];
        match order {
            ByteOrder::Little => push_le(&mut out, raw, w),
            ByteOrder::Big => push_be(&mut out, raw, w),
        }
        proof {
            lemma_encoded_payload_push(samples@.take(i as int), w as nat, order, raw);
            assert(samples@.take(i as int + 1) =~= samples@.take(i as int).push(samples@[i as int]));
        }
        i = i + 1;
    }
    proof {
        assert(samples@.take(samples@.len() as int) =~= samples@);
    }
    out
}

} // verus!
