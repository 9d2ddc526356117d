//! The wire codec: serialising and deserialising whole messages.
//!
//! Each message is self-describing: a one-byte kind tag, a fixed header,
//! and — for data messages — a four-byte length prefix before the payload.
//! Repeated receives over a byte stream can therefore always be split back
//! into whole messages, which `decode_message` does by reporting how many
//! bytes the first message of a buffer occupies.

use vstd::prelude::*;

use crate::bytes::copy_range;
use crate::bytes::le_bytes;
use crate::bytes::le_value;
use crate::bytes::lemma_le_bytes_len;
use crate::bytes::lemma_le_round_trip;
use crate::bytes::lemma_pow256_values;
use crate::bytes::push_le;
use crate::bytes::read_le;
use crate::errors::SchemaError;
use crate::message::Config;
use crate::message::Data;
use crate::message::DataView;
use crate::message::Message;
use crate::message::MessageView;
use crate::message::config_wf;
use crate::message::message_wf;
use crate::sample::decode_byte_order;
use crate::sample::decode_sample_format;
use crate::sample::encode_byte_order;
use crate::sample::encode_sample_format;
use crate::sample::lemma_format_code_round_trip;
use crate::sample::spec_decode_format;
use crate::sample::spec_decode_order;
use crate::sample::spec_format_code;
use crate::sample::spec_order_code;

verus! {

/// The tag byte that opens a `Config` message.
pub const CONFIG_TAG: u8 = 1;

/// The tag byte that opens a `Data` message.
pub const DATA_TAG: u8 = 2;

/// The length of an encoded `Config`: tag, format, order, two counts.
pub const CONFIG_LEN: usize = 11;

/// The length of a `Data` header: tag, flag, payload length.
pub const DATA_HEADER_LEN: usize = 6;

/// The wire bytes of a `Config`: tag, format code, byte-order code, then
/// channel count and sample rate as four little-endian bytes each.
pub open spec fn spec_encode_config(c: Config) -> Seq<u8> {
    seq![
        CONFIG_TAG,
        spec_format_code(c.sample_format) as u8,
        spec_order_code(c.byte_order) as u8,
    ] + le_bytes(c.channel_count as nat, 4) + le_bytes(c.sample_rate as nat, 4)
}

/// The wire bytes of a `Data`: tag, terminate flag, the payload length as
/// four little-endian bytes, then the payload itself.
pub open spec fn spec_encode_data(d: DataView) -> Seq<u8> {
    seq![DATA_TAG, if d.terminate { 1u8 } else { 0u8 }] + le_bytes(d.payload.len(), 4)
        + d.payload
}

pub open spec fn spec_encode_message(m: MessageView) -> Seq<u8> {
    match m {
        MessageView::Config(c) => spec_encode_config(c),
        MessageView::Data(d) => spec_encode_data(d),
    }
}

/// What decoding `b` as one whole `Config` message yields.
pub open spec fn spec_decode_config(b: Seq<u8>) -> Result<Config, SchemaError> {
    if b.len() < 1 {
        Err(SchemaError::Truncated)
    } else if b[0] != CONFIG_TAG {
        Err(SchemaError::UnknownTag)
    } else if b.len() < CONFIG_LEN {
        Err(SchemaError::Truncated)
    } else if b.len() > CONFIG_LEN {
        Err(SchemaError::TrailingBytes)
    } else if spec_decode_format(b[1] as int) is None {
        Err(SchemaError::UnknownFormat)
    } else if spec_decode_order(b[2] as int) is None {
        Err(SchemaError::UnknownByteOrder)
    } else if le_value(b.subrange(3, 7)) == 0 || le_value(b.subrange(7, 11)) == 0 {
        Err(SchemaError::ZeroField)
    } else {
        Ok(
            Config {
                sample_format: spec_decode_format(b[1] as int).unwrap(),
                channel_count: le_value(b.subrange(3, 7)) as u32,
                sample_rate: le_value(b.subrange(7, 11)) as u32,
                byte_order: spec_decode_order(b[2] as int).unwrap(),
            },
        )
    }
}

/// What decoding `b` as one whole `Data` message yields.
pub open spec fn spec_decode_data(b: Seq<u8>) -> Result<DataView, SchemaError> {
    if b.len() < 1 {
        Err(SchemaError::Truncated)
    } else if b[0] != DATA_TAG {
        Err(SchemaError::UnknownTag)
    } else if b.len() < DATA_HEADER_LEN {
        Err(SchemaError::Truncated)
    } else if b[1] != 0 && b[1] != 1 {
        Err(SchemaError::UnknownFlag)
    } else {
        let n = le_value(b.subrange(2, 6));
        if b.len() < DATA_HEADER_LEN + n {
            Err(SchemaError::Truncated)
        } else if b.len() > DATA_HEADER_LEN + n {
            Err(SchemaError::TrailingBytes)
        } else if b[1] == 1 && n != 0 {
            Err(SchemaError::TerminatePayload)
        } else {
            Ok(DataView { terminate: b[1] == 1, payload: b.skip(DATA_HEADER_LEN as int) })
        }
    }
}

/// What decoding the first whole message of `b` yields, and how many bytes
/// it occupies; trailing bytes belong to the next message and are left
/// alone.
pub open spec fn spec_decode_message_prefix(b: Seq<u8>) -> Result<
    (MessageView, nat),
    SchemaError,
> {
    if b.len() < 1 {
        Err(SchemaError::Truncated)
    } else if b[0] == CONFIG_TAG {
        if b.len() < CONFIG_LEN {
            Err(SchemaError::Truncated)
        } else {
            match spec_decode_config(b.take(CONFIG_LEN as int)) {
                Ok(c) => Ok((MessageView::Config(c), CONFIG_LEN as nat)),
                Err(e) => Err(e),
            }
        }
    } else if b[0] == DATA_TAG {
        if b.len() < DATA_HEADER_LEN {
            Err(SchemaError::Truncated)
        } else {
            let n = le_value(b.subrange(2, 6));
            if b.len() < DATA_HEADER_LEN + n {
                Err(SchemaError::Truncated)
            } else {
                match spec_decode_data(b.take(DATA_HEADER_LEN as int + n as int)) {
                    Ok(d) => Ok((MessageView::Data(d), (DATA_HEADER_LEN + n) as nat)),
                    Err(e) => Err(e),
                }
            }
        }
    } else {
        Err(SchemaError::UnknownTag)
    }
}

/// Encodes one message for the wire.
pub fn serialise(message: &Message) -> (r: Vec<u8>)
    requires
        message_wf(message@),
    ensures
        r@ == spec_encode_message(message@),
{
    let mut out: Vec<u8> = Vec::new();
    match message {
        Message::Config(c) => {
            out.push(CONFIG_TAG);
            let code = encode_sample_format(&c.sample_format);
            out.push(code as u8);
            out.push(encode_byte_order(&c.byte_order));
            push_le(&mut out, c.channel_count as u64, 4);
            push_le(&mut out, c.sample_rate as u64, 4);
            proof {
                assert(out@ =~= spec_encode_message(message@));
            }
        },
        Message::Data(d) => {
            out.push(DATA_TAG);
            out.push(if d.terminate { 1 } else { 0 });
            push_le(&mut out, d.payload.len() as u64, 4);
            let ghost header = out@;
            let mut i: usize = 0;
            while i < d.payload.len()
                invariant
                    i <= d.payload@.len(),
                    out@ == header + d.payload@.take(i as int),
                decreases d.payload@.len() - i,
            {
                out.push(d.payload[i]);
                proof {
                    assert(header + d.payload@.take(i as int + 1) =~= (header
                        + d.payload@.take(i as int)).push(d.payload@[i as int]));
                }
                i = i + 1;
            }
            proof {
                assert(d.payload@.take(d.payload@.len() as int) =~= d.payload@);
                assert(out@ =~= spec_encode_message(message@));
            }
        },
    }
    out
}

/// Decodes a buffer that should hold exactly one `Config` message.
pub fn deserialise_config(buf: &Vec<u8>) -> (r: Result<Config, SchemaError>)
    ensures
        r == spec_decode_config(buf@),
{
    if buf.len() < 1 {
        return Err(SchemaError::Truncated);
    }
    if buf[0] != CONFIG_TAG {
        return Err(SchemaError::UnknownTag);
    }
    if buf.len() < CONFIG_LEN {
        return Err(SchemaError::Truncated);
    }
    if buf.len() > CONFIG_LEN {
        return Err(SchemaError::TrailingBytes);
    }
    let sample_format = match decode_sample_format(buf[1] as i32) {
        Some(f) => f,
        None => {
            return Err(SchemaError::UnknownFormat);
        },
    };
    let byte_order = match decode_byte_order(buf[2]) {
        Some(o) => o,
        None => {
            return Err(SchemaError::UnknownByteOrder);
        },
    };
    let channels = read_le(buf, 3, 4);
    let rate = read_le(buf, 7, 4);
    if channels == 0 || rate == 0 {
        return Err(SchemaError::ZeroField);
    }
    proof {
        lemma_pow256_values();
    }
    Ok(
        Config {
            sample_format,
            channel_count: channels as u32,
            sample_rate: rate as u32,
            byte_order,
        },
    )
}

/// Decodes a buffer that should hold exactly one `Data` message.
pub fn deserialise_data(buf: &Vec<u8>) -> (r: Result<Data, SchemaError>)
    ensures
        match r {
            Ok(d) => spec_decode_data(buf@) == Ok::<DataView, SchemaError>(d@),
            Err(e) => spec_decode_data(buf@) == Err::<DataView, SchemaError>(e),
        },
{
    if buf.len() < 1 {
        return Err(SchemaError::Truncated);
    }
    if buf[0] != DATA_TAG {
        return Err(SchemaError::UnknownTag);
    }
    if buf.len() < DATA_HEADER_LEN {
        return Err(SchemaError::Truncated);
    }
    let flag = buf[1];
    if flag != 0 && flag != 1 {
        return Err(SchemaError::UnknownFlag);
    }
    let n64 = read_le(buf, 2, 4);
    proof {
        lemma_pow256_values();
    }
    let n = n64 as usize;
    if buf.len() - DATA_HEADER_LEN < n {
        return Err(SchemaError::Truncated);
    }
    if buf.len() - DATA_HEADER_LEN > n {
        return Err(SchemaError::TrailingBytes);
    }
    if flag == 1 && n != 0 {
        return Err(SchemaError::TerminatePayload);
    }
    let payload = copy_range(buf, DATA_HEADER_LEN, buf.len());
    proof {
        assert(buf@.subrange(DATA_HEADER_LEN as int, buf@.len() as int) =~= buf@.skip(
            DATA_HEADER_LEN as int,
        ));
    }
    Ok(Data { terminate: flag == 1, payload })
}

/// Decodes the first whole message of `buf`, reporting how many bytes it
/// occupied, so that coalesced receives can be split back into messages.
pub fn decode_message(buf: &Vec<u8>) -> (r: Result<(Message, usize), SchemaError>)
    ensures
        match r {
            Ok(p) => spec_decode_message_prefix(buf@) == Ok::<(MessageView, nat), SchemaError>(
                (p.0@, p.1 as nat),
            ),
            Err(e) => spec_decode_message_prefix(buf@) == Err::<(MessageView, nat), SchemaError>(
                e,
            ),
        },
{
    if buf.len() < 1 {
        return Err(SchemaError::Truncated);
    }
    if buf[0] == CONFIG_TAG {
        if buf.len() < CONFIG_LEN {
            return Err(SchemaError::Truncated);
        }
        let head = copy_range(buf, 0, CONFIG_LEN);
        proof {
            assert(head@ =~= buf@.take(CONFIG_LEN as int));
        }
        match deserialise_config(&head) {
            Ok(c) => Ok((Message::Config(c), CONFIG_LEN)),
            Err(e) => Err(e),
        }
    } else if buf[0] == DATA_TAG {
        if buf.len() < DATA_HEADER_LEN {
            return Err(SchemaError::Truncated);
        }
        let n64 = read_le(buf, 2, 4);
        proof {
            lemma_pow256_values();
        }
        let n = n64 as usize;
        if buf.len() - DATA_HEADER_LEN < n {
            return Err(SchemaError::Truncated);
        }
        let frame_len = DATA_HEADER_LEN + n;
        let head = copy_range(buf, 0, frame_len);
        proof {
            assert(head@ =~= buf@.take(frame_len as int));
            assert(head@.subrange(2, 6) =~= buf@.subrange(2, 6));
        }
        match deserialise_data(&head) {
            Ok(d) => Ok((Message::Data(d), frame_len)),
            Err(e) => Err(e),
        }
    } else {
        Err(SchemaError::UnknownTag)
    }
}

/// Round trip: every well-formed `Config`, for every supported sample
/// format and byte order, comes back unchanged from its own encoding.
pub proof fn lemma_config_round_trip(c: Config)
    requires
        config_wf(c),
    ensures
        spec_decode_config(spec_encode_config(c)) == Ok::<Config, SchemaError>(c),
{
    let b = spec_encode_config(c);
    lemma_le_bytes_len(c.channel_count as nat, 4);
    lemma_le_bytes_len(c.sample_rate as nat, 4);
    assert(b.len() == CONFIG_LEN);
    assert(b.subrange(3, 7) =~= le_bytes(c.channel_count as nat, 4));
    assert(b.subrange(7, 11) =~= le_bytes(c.sample_rate as nat, 4));
    lemma_pow256_values();
    lemma_le_round_trip(c.channel_count as nat, 4);
    lemma_le_round_trip(c.sample_rate as nat, 4);
    lemma_format_code_round_trip(c.sample_format);
}

} // verus!
