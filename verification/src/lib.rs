//! A verified transport core for streaming raw audio samples over a
//! message channel: the sample abstraction, the self-describing message
//! codec, the single-producer single-consumer ring buffer bridge, and the
//! capture and playback session state machines. The audio device and the
//! socket stay outside; they hand plain values in and take plain values
//! out.

pub mod bytes;
pub mod capture;
pub mod codec;
pub mod errors;
pub mod message;
pub mod playback;
pub mod ring;
pub mod sample;

pub use codec::decode_message;
pub use codec::deserialise_config;
pub use codec::deserialise_data;
pub use codec::serialise;
pub use message::create_audio_message;
pub use message::create_config_message;
pub use message::create_terminate_message;
pub use sample::decode_sample_format;
pub use sample::encode_sample_format;
