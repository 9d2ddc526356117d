use audio_server::codec::decode_message;
use audio_server::codec::deserialise_config;
use audio_server::codec::deserialise_data;
use audio_server::codec::serialise;
use audio_server::errors::SchemaError;
use audio_server::message::Config;
use audio_server::message::Message;
use audio_server::message::create_audio_message;
use audio_server::message::create_config_message;
use audio_server::message::create_terminate_message;
use audio_server::sample::ByteOrder;
use audio_server::sample::SampleFormat;
use audio_server::sample::decode_sample_format;
use audio_server::sample::encode_sample_format;

fn all_formats() -> Vec<SampleFormat> {
    vec![
        SampleFormat::I8,
        SampleFormat::I16,
        SampleFormat::I32,
        SampleFormat::I64,
        SampleFormat::U8,
        SampleFormat::U16,
        SampleFormat::U32,
        SampleFormat::U64,
        SampleFormat::F32,
        SampleFormat::F64,
    ]
}

fn config_frame(format_code: u8, order_code: u8, channels: u32, rate: u32) -> Vec<u8> {
    let mut v = vec![1u8, format_code, order_code];
    v.extend_from_slice(&channels.to_le_bytes());
    v.extend_from_slice(&rate.to_le_bytes());
    v
}

fn data_frame(flag: u8, payload: &[u8]) -> Vec<u8> {
    let mut v = vec![2u8, flag];
    v.extend_from_slice(&(payload.len() as u32).to_le_bytes());
    v.extend_from_slice(payload);
    v
}

#[test]
fn config_round_trip_all_formats_and_orders() {
    for format in all_formats() {
        for order in [ByteOrder::Little, ByteOrder::Big] {
            let config = create_config_message(format, 2, 48000, order);
            let bytes = serialise(&Message::Config(config));
            let back = deserialise_config(&bytes).expect("round trip must decode");
            assert_eq!(back, config);
        }
    }
}

#[test]
fn config_wire_layout_is_fixed() {
    let config = create_config_message(SampleFormat::F32, 1, 44100, ByteOrder::Little);
    let bytes = serialise(&Message::Config(config));
    assert_eq!(bytes, vec![1u8, 8, 0, 1, 0, 0, 0, 0x44, 0xAC, 0, 0]);
}

#[test]
fn data_round_trip_keeps_payload() {
    let data = create_audio_message(&vec![0x0102u64, 0x0304u64], SampleFormat::I16, ByteOrder::Big);
    assert_eq!(data.payload, vec![1u8, 2, 3, 4]);
    let bytes = serialise(&Message::Data(data));
    let back = deserialise_data(&bytes).expect("round trip must decode");
    assert!(!back.terminate);
    assert_eq!(back.payload, vec![1u8, 2, 3, 4]);
}

#[test]
fn audio_message_little_endian_layout() {
    let data = create_audio_message(
        &vec![0x0102u64, 0x0304u64],
        SampleFormat::I16,
        ByteOrder::Little,
    );
    assert!(!data.terminate);
    assert_eq!(data.payload, vec![2u8, 1, 4, 3]);
}

#[test]
fn terminate_message_round_trip() {
    let data = create_terminate_message();
    assert!(data.terminate);
    assert!(data.payload.is_empty());
    let bytes = serialise(&Message::Data(data));
    let back = deserialise_data(&bytes).expect("round trip must decode");
    assert!(back.terminate);
    assert!(back.payload.is_empty());
}

#[test]
fn sample_format_codes_round_trip() {
    for format in all_formats() {
        let code = encode_sample_format(&format);
        assert_eq!(decode_sample_format(code), Some(format));
    }
    assert_eq!(decode_sample_format(10), None);
    assert_eq!(decode_sample_format(-1), None);
}

#[test]
fn truncated_config_is_rejected() {
    assert_eq!(deserialise_config(&vec![]), Err(SchemaError::Truncated));
    assert_eq!(deserialise_config(&vec![1u8, 8, 0]), Err(SchemaError::Truncated));
}

#[test]
fn wrong_tag_is_rejected() {
    let mut frame = config_frame(8, 0, 1, 44100);
    frame[0] = 9;
    assert_eq!(deserialise_config(&frame), Err(SchemaError::UnknownTag));
    assert_eq!(deserialise_data(&config_frame(8, 0, 1, 44100)), Err(SchemaError::UnknownTag));
}

#[test]
fn unknown_format_code_is_rejected() {
    let frame = config_frame(10, 0, 1, 44100);
    assert_eq!(deserialise_config(&frame), Err(SchemaError::UnknownFormat));
}

#[test]
fn unknown_byte_order_code_is_rejected() {
    let frame = config_frame(8, 2, 1, 44100);
    assert_eq!(deserialise_config(&frame), Err(SchemaError::UnknownByteOrder));
}

#[test]
fn zero_channel_count_or_rate_is_rejected() {
    assert_eq!(deserialise_config(&config_frame(8, 0, 0, 44100)), Err(SchemaError::ZeroField));
    assert_eq!(deserialise_config(&config_frame(8, 0, 1, 0)), Err(SchemaError::ZeroField));
}

#[test]
fn trailing_bytes_after_config_are_rejected() {
    let mut frame = config_frame(8, 0, 1, 44100);
    frame.push(0);
    assert_eq!(deserialise_config(&frame), Err(SchemaError::TrailingBytes));
}

#[test]
fn truncated_data_is_rejected() {
    assert_eq!(deserialise_data(&vec![2u8, 0, 5]), Err(SchemaError::Truncated));
    let mut frame = vec![2u8, 0];
    frame.extend_from_slice(&5u32.to_le_bytes());
    frame.extend_from_slice(&[1, 2, 3]);
    assert_eq!(deserialise_data(&frame), Err(SchemaError::Truncated));
}

#[test]
fn trailing_bytes_after_data_are_rejected() {
    let mut frame = vec![2u8, 0];
    frame.extend_from_slice(&1u32.to_le_bytes());
    frame.extend_from_slice(&[7, 7]);
    assert_eq!(deserialise_data(&frame), Err(SchemaError::TrailingBytes));
}

#[test]
fn unknown_terminate_flag_is_rejected() {
    let frame = data_frame(2, &[]);
    assert_eq!(deserialise_data(&frame), Err(SchemaError::UnknownFlag));
}

#[test]
fn terminate_with_payload_is_rejected() {
    let frame = data_frame(1, &[0]);
    assert_eq!(deserialise_data(&frame), Err(SchemaError::TerminatePayload));
}

#[test]
fn coalesced_messages_split_at_frame_boundaries() {
    let mut stream = config_frame(5, 1, 2, 22050);
    stream.extend_from_slice(&data_frame(0, &[9, 8, 7, 6]));
    stream.extend_from_slice(&data_frame(1, &[]));

    let (message, used) = decode_message(&stream).expect("first frame must decode");
    assert_eq!(used, 11);
    match message {
        Message::Config(c) => {
            assert_eq!(
                c,
                Config {
                    sample_format: SampleFormat::U16,
                    channel_count: 2,
                    sample_rate: 22050,
                    byte_order: ByteOrder::Big,
                },
            );
        },
        Message::Data(_) => panic!("expected a config frame"),
    }

    let rest: Vec<u8> = stream[used..].to_vec();
    let (message, used) = decode_message(&rest).expect("second frame must decode");
    assert_eq!(used, 10);
    match message {
        Message::Data(d) => {
            assert!(!d.terminate);
            assert_eq!(d.payload, vec![9u8, 8, 7, 6]);
        },
        Message::Config(_) => panic!("expected a data frame"),
    }

    let rest: Vec<u8> = rest[used..].to_vec();
    let (message, used) = decode_message(&rest).expect("third frame must decode");
    assert_eq!(used, rest.len());
    match message {
        Message::Data(d) => assert!(d.terminate),
        Message::Config(_) => panic!("expected the terminate frame"),
    }
}

#[test]
fn partial_frame_asks_for_more_bytes() {
    let frame = data_frame(0, &[1, 2, 3, 4]);
    let partial: Vec<u8> = frame[..7].to_vec();
    assert!(matches!(decode_message(&partial), Err(SchemaError::Truncated)));
}
