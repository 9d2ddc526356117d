//! The two message kinds of a session, with their mathematical views.
//!
//! A session speaks exactly two kinds of wire message: one `Config`, sent
//! first and only once, and then any number of `Data` messages, the last of
//! which carries the terminate flag and no payload.

use vstd::prelude::*;

use crate::sample::ByteOrder;
use crate::sample::SampleFormat;
use crate::sample::encode_payload;
use crate::sample::encoded_payload;
use crate::sample::spec_width;

verus! {

/// The stream configuration one peer sends before any audio data: which
/// sample type the payload bytes hold, how many channels and at what rate
/// the device runs, and in which byte order each sample is laid out.
#[derive(Clone, Copy, Debug, PartialEq, Eq, Structural)]
pub struct Config {
    pub sample_format: SampleFormat,
    pub channel_count: u32,
    pub sample_rate: u32,
    pub byte_order: ByteOrder,
}

/// A `Config` is well formed when both of its counts are positive.
pub open spec fn config_wf(c: Config) -> bool {
    c.channel_count >= 1 && c.sample_rate >= 1
}

/// One audio message: either a raw sample payload in the sender's declared
/// byte order, or the orderly end of the session.
#[derive(Debug, PartialEq)]
pub struct Data {
    pub terminate: bool,
    pub payload: Vec<u8>,
}

/// The mathematical view of a `Data` message.
pub struct DataView {
    pub terminate: bool,
    pub payload: Seq<u8>,
}

impl View for Data {
    type V = DataView;

    open spec fn view(&self) -> DataView {
        DataView { terminate: self.terminate, payload: self.payload@ }
    }
}

/// A `Data` is well formed when its payload length fits the wire length
/// field and a terminate message carries no payload.
pub open spec fn data_wf(d: DataView) -> bool {
    d.payload.len() <= u32::MAX && (d.terminate ==> d.payload.len() == 0)
}

/// A whole wire message.
#[derive(Debug)]
pub enum Message {
    Config(Config),
    Data(Data),
}

/// The mathematical view of a message.
pub enum MessageView {
    Config(Config),
    Data(DataView),
}

impl View for Message {
    type V = MessageView;

    open spec fn view(&self) -> MessageView {
        match self {
            Message::Config(c) => MessageView::Config(*c),
            Message::Data(d) => MessageView::Data(d@),
        }
    }
}

pub open spec fn message_wf(m: MessageView) -> bool {
    match m {
        MessageView::Config(c) => config_wf(c),
        MessageView::Data(d) => data_wf(d),
    }
}

/// The message that ends a session in order: terminate set, no payload.
pub fn create_terminate_message() -> (d: Data)
    ensures
        d@.terminate == true,
        d@.payload == Seq::<u8>::empty(),
        data_wf(d@),
{
    Data { terminate: true, payload: Vec::new() }
}

/// The configuration message a capturing peer sends once, before any data.
pub fn create_config_message(
    sample_format: SampleFormat,
    channel_count: u32,
    sample_rate: u32,
    byte_order: ByteOrder,
) -> (c: Config)
    requires
        channel_count >= 1,
        sample_rate >= 1,
    ensures
        c == (Config { sample_format, channel_count, sample_rate, byte_order }),
        config_wf(c),
{
    Config { sample_format, channel_count, sample_rate, byte_order }
}

/// Wraps captured samples in a `Data` message: terminate unset, the payload
/// the samples' wire words in order.
pub fn create_audio_message(samples: &Vec<u64>, format: SampleFormat, order: ByteOrder) -> (d:
    Data)
    ensures
        d@.terminate == false,
        d@.payload == encoded_payload(samples@, spec_width(format), order),
{
    Data { terminate: false, payload: encode_payload(samples, format, order) }
}

} // verus!
