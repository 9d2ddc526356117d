use audio_server::capture::CaptureSession;
use audio_server::capture::CaptureState;
use audio_server::errors::SchemaError;
use audio_server::errors::SessionError;
use audio_server::message::create_config_message;
use audio_server::playback::PlaybackAction;
use audio_server::playback::PlaybackSession;
use audio_server::playback::PlaybackState;
use audio_server::sample::ByteOrder;
use audio_server::sample::SampleFormat;

fn config_frame(format_code: u8, order_code: u8, channels: u32, rate: u32) -> Vec<u8> {
    let mut v = vec![1u8, format_code, order_code];
    v.extend_from_slice(&channels.to_le_bytes());
    v.extend_from_slice(&rate.to_le_bytes());
    v
}

fn data_frame(flag: u8, payload: &[u8]) -> Vec<u8> {
    let mut v = vec![2u8, flag];
    v.extend_from_slice(&(payload.len() as u32).to_le_bytes());
    v.extend_from_slice(payload);
    v
}

#[test]
fn playback_decodes_f32_little_endian_samples() {
    let mut session = PlaybackSession::new(1024);
    let action = session
        .on_bytes(&config_frame(8, 0, 1, 44100))
        .expect("handshake must succeed");
    match action {
        PlaybackAction::OpenDevice(c) => {
            assert_eq!(c.sample_format, SampleFormat::F32);
            assert_eq!(c.channel_count, 1);
            assert_eq!(c.sample_rate, 44100);
            assert_eq!(c.byte_order, ByteOrder::Little);
        },
        _ => panic!("the handshake must ask for the device"),
    }
    assert_eq!(session.state(), PlaybackState::Streaming);

    let mut payload = Vec::new();
    payload.extend_from_slice(&1.0f32.to_le_bytes());
    payload.extend_from_slice(&(-1.0f32).to_le_bytes());
    let action = session.on_bytes(&data_frame(0, &payload)).expect("payload must decode");
    assert_eq!(action, PlaybackAction::Continue);

    assert_eq!(session.next_sample(), 1.0f32.to_bits() as u64);
    assert_eq!(session.next_sample(), (-1.0f32).to_bits() as u64);
    assert_eq!(session.next_sample(), 0, "underflow must yield silence");
}

#[test]
fn playback_data_before_config_is_a_handshake_error() {
    let mut session = PlaybackSession::new(64);
    let r = session.on_bytes(&data_frame(0, &[1, 2, 3, 4]));
    assert_eq!(r, Err(SessionError::Handshake));
    assert_eq!(session.state(), PlaybackState::Terminated);
    assert!(session.config().is_none(), "no device may be asked for");
}

#[test]
fn playback_malformed_first_message_is_a_handshake_error() {
    let mut session = PlaybackSession::new(64);
    let r = session.on_bytes(&vec![0u8, 1, 2]);
    assert_eq!(r, Err(SessionError::Handshake));
    assert_eq!(session.state(), PlaybackState::Terminated);
    assert!(session.config().is_none());
}

#[test]
fn playback_terminate_ends_the_session_for_good() {
    let mut session = PlaybackSession::new(64);
    session.on_bytes(&config_frame(4, 0, 1, 8000)).expect("handshake must succeed");
    let action = session.on_bytes(&data_frame(1, &[])).expect("terminate must be accepted");
    assert_eq!(action, PlaybackAction::Stop);
    assert_eq!(session.state(), PlaybackState::Terminated);

    let action = session
        .on_bytes(&data_frame(0, &[1, 2, 3]))
        .expect("a terminated session ignores later bytes");
    assert_eq!(action, PlaybackAction::Stop);
    assert_eq!(session.state(), PlaybackState::Terminated);
    assert_eq!(session.next_sample(), 0, "no sample may be accepted after terminate");
}

#[test]
fn playback_rejects_odd_payload_length_and_goes_on() {
    let mut session = PlaybackSession::new(64);
    session.on_bytes(&config_frame(8, 0, 1, 44100)).expect("handshake must succeed");

    let r = session.on_bytes(&data_frame(0, &[1, 2, 3, 4, 5]));
    assert_eq!(r, Err(SessionError::Schema(SchemaError::LengthMismatch)));
    assert_eq!(session.state(), PlaybackState::Streaming, "the session goes on");
    assert_eq!(session.next_sample(), 0, "nothing may be half decoded");

    let action = session
        .on_bytes(&data_frame(0, &2.0f32.to_le_bytes()))
        .expect("a later well-formed payload still decodes");
    assert_eq!(action, PlaybackAction::Continue);
    assert_eq!(session.next_sample(), 2.0f32.to_bits() as u64);
}

#[test]
fn playback_keeps_fifo_order() {
    let mut session = PlaybackSession::new(64);
    session.on_bytes(&config_frame(1, 0, 1, 8000)).expect("handshake must succeed");
    let payload: Vec<u8> = vec![10, 0, 20, 0, 30, 0];
    session.on_bytes(&data_frame(0, &payload)).expect("payload must decode");
    assert_eq!(session.next_sample(), 10);
    assert_eq!(session.next_sample(), 20);
    assert_eq!(session.next_sample(), 30);
    assert_eq!(session.next_sample(), 0);
}

#[test]
fn playback_overflow_drops_the_newest_samples() {
    let mut session = PlaybackSession::new(2);
    session.on_bytes(&config_frame(4, 0, 1, 8000)).expect("handshake must succeed");
    session.on_bytes(&data_frame(0, &[1, 2, 3, 4])).expect("payload must decode");
    assert_eq!(session.next_sample(), 1, "the oldest samples stay");
    assert_eq!(session.next_sample(), 2);
    assert_eq!(session.next_sample(), 0, "the overflowing samples were dropped");
}

#[test]
fn playback_rejects_a_second_config() {
    let mut session = PlaybackSession::new(64);
    session.on_bytes(&config_frame(8, 0, 1, 44100)).expect("handshake must succeed");
    let r = session.on_bytes(&config_frame(8, 0, 1, 44100));
    assert_eq!(r, Err(SessionError::Schema(SchemaError::UnexpectedConfig)));
    assert_eq!(session.state(), PlaybackState::Streaming);
}

#[test]
fn playback_reports_and_drops_malformed_data() {
    let mut session = PlaybackSession::new(64);
    session.on_bytes(&config_frame(4, 0, 1, 8000)).expect("handshake must succeed");
    let r = session.on_bytes(&vec![2u8, 7]);
    assert_eq!(r, Err(SessionError::Schema(SchemaError::Truncated)));
    assert_eq!(session.state(), PlaybackState::Streaming);
}

#[test]
fn capture_streams_and_terminates() {
    let config = create_config_message(SampleFormat::I16, 2, 48000, ByteOrder::Little);
    let mut session = CaptureSession::new(config, 1024);
    assert_eq!(session.state(), CaptureState::Idle);

    let hello = session.start();
    assert_eq!(hello, config_frame(1, 0, 2, 48000));
    assert_eq!(session.state(), CaptureState::Streaming);

    session.capture_samples(&vec![1u64, 2, 3]);

    let first = session.drain(2).expect("two samples waited");
    assert_eq!(first, data_frame(0, &[1, 0, 2, 0]));

    let second = session.drain(8).expect("one sample still waited");
    assert_eq!(second, data_frame(0, &[3, 0]));

    assert!(session.drain(8).is_none(), "an empty buffer sends no message");

    let goodbye = session.stop();
    assert_eq!(goodbye, data_frame(1, &[]));
    assert_eq!(session.state(), CaptureState::Terminated);
}

#[test]
fn capture_overflow_drops_the_newest_samples() {
    let config = create_config_message(SampleFormat::U8, 1, 8000, ByteOrder::Little);
    let mut session = CaptureSession::new(config, 2);
    session.start();
    session.capture_samples(&vec![1u64, 2, 3]);
    let drained = session.drain(8).expect("the oldest samples stay");
    assert_eq!(drained, data_frame(0, &[1, 2]));
    assert!(session.drain(8).is_none(), "the newest sample was dropped");
}

#[test]
fn capture_feeds_playback_end_to_end() {
    let config = create_config_message(SampleFormat::I32, 1, 44100, ByteOrder::Big);
    let mut sender = CaptureSession::new(config, 256);
    let mut receiver = PlaybackSession::new(256);

    let hello = sender.start();
    let action = receiver.on_bytes(&hello).expect("handshake must succeed");
    assert_eq!(action, PlaybackAction::OpenDevice(config));

    let samples: Vec<u64> = vec![0x01020304, 0x05060708, 0x0A0B0C0D];
    sender.capture_samples(&samples);
    let message = sender.drain(16).expect("samples waited");
    let action = receiver.on_bytes(&message).expect("payload must decode");
    assert_eq!(action, PlaybackAction::Continue);

    for s in &samples {
        assert_eq!(receiver.next_sample(), *s);
    }
    assert_eq!(receiver.next_sample(), 0);

    let goodbye = sender.stop();
    let action = receiver.on_bytes(&goodbye).expect("terminate must be accepted");
    assert_eq!(action, PlaybackAction::Stop);
    assert_eq!(receiver.state(), PlaybackState::Terminated);
}
