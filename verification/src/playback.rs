//! The playback session: negotiate the configuration, decode inbound
//! payloads, and feed the device through the ring buffer.
//!
//! The session is a state machine from received bytes to a next state and
//! an action for the caller; the caller owns the socket and the device and
//! performs the action. The first message must decode as a `Config`, or the
//! session aborts before any device is opened. While streaming, a malformed
//! message is dropped and reported, a sample payload is decoded in the
//! negotiated format and byte order and pushed best-effort into the ring
//! buffer, and a terminate message ends the session for good: afterwards no
//! bytes are accepted any more, whatever else arrives.

use vstd::prelude::*;

use crate::bytes::lemma_le_value_bound;
use crate::bytes::lemma_pow256_values;
use crate::codec::CONFIG_TAG;
use crate::codec::deserialise_config;
use crate::codec::deserialise_data;
use crate::codec::spec_decode_config;
use crate::codec::spec_decode_data;
use crate::errors::SchemaError;
use crate::errors::SessionError;
use crate::message::Config;
use crate::message::config_wf;
use crate::ring::RingBuffer;
use crate::ring::lemma_ring_push_all_model_bound;
use crate::ring::lemma_ring_push_all_model_pred;
use crate::ring::ring_capacity;
use crate::ring::ring_contents;
use crate::ring::ring_push_all_model;
use crate::sample::decode_payload;
use crate::sample::decoded_payload;
use crate::sample::fits;
use crate::sample::spec_width;

verus! {

/// Where a playback session stands.
#[derive(Clone, Copy, Debug, PartialEq, Eq, Structural)]
pub enum PlaybackState {
    AwaitingConfig,
    Streaming,
    Terminated,
}

/// What the caller should do after handing the session some bytes.
#[derive(Clone, Copy, Debug, PartialEq, Eq, Structural)]
pub enum PlaybackAction {
    /// The handshake is done: open the output device so configured.
    OpenDevice(Config),
    /// Keep receiving.
    Continue,
    /// The session is over: stop the device and close the channel.
    Stop,
}

/// One playback session: the receiving end of a stream.
pub struct PlaybackSession {
    state: PlaybackState,
    capacity: usize,
    config: Option<Config>,
    ring: RingBuffer,
}

impl PlaybackSession {
    /// The session's well-formedness: the ring buffer keeps its fixed
    /// capacity and never overfills; a negotiated configuration is well
    /// formed, and every held sample fits its format's width; before the
    /// handshake there is no configuration and nothing is buffered.
    pub closed spec fn inv(self) -> bool {
        &&& 1 <= self.capacity
        &&& ring_capacity(self.ring) == self.capacity
        &&& ring_contents(self.ring).len() <= self.capacity
        &&& (self.state is AwaitingConfig ==> self.config is None && ring_contents(
            self.ring,
        ).len() == 0)
        &&& (self.state is Streaming ==> self.config is Some)
        &&& (self.config is Some ==> {
            &&& config_wf(self.config.unwrap())
            &&& forall|i: int|
                0 <= i < ring_contents(self.ring).len() ==> fits(
                    #[trigger] ring_contents(self.ring)[i],
                    self.config.unwrap().sample_format,
                )
        })
    }

    pub closed spec fn spec_state(self) -> PlaybackState {
        self.state
    }

    pub closed spec fn spec_config(self) -> Option<Config> {
        self.config
    }

    /// The samples waiting in the ring buffer, oldest first.
    pub closed spec fn samples(self) -> Seq<u64> {
        ring_contents(self.ring)
    }

    pub closed spec fn spec_capacity(self) -> nat {
        self.capacity as nat
    }

    /// A fresh session that waits for its configuration. The capacity is
    /// the ring buffer's, chosen once to absorb the worst scheduling jitter
    /// between the socket loop and the device callback.
    pub fn new(capacity: usize) -> (s: PlaybackSession)
        requires
            capacity >= 1,
        ensures
            s.inv(),
            s.spec_state() == PlaybackState::AwaitingConfig,
            s.spec_config() is None,
            s.samples() == Seq::<u64>::empty(),
            s.spec_capacity() == capacity as nat,
    {
        PlaybackSession {
            state: PlaybackState::AwaitingConfig,
            capacity,
            config: None,
            ring: RingBuffer::new(capacity),
        }
    }

    pub fn state(&self) -> (r: PlaybackState)
        ensures
            r == self.spec_state(),
    {
        self.state
    }

    pub fn config(&self) -> (r: Option<Config>)
        ensures
            r == self.spec_config(),
    {
        self.config
    }

    /// Hands the session one received byte range.
    ///
    /// Before the handshake, only a well-formed `Config` is accepted: it
    /// moves the session to streaming and asks the caller to open the
    /// device; anything else — a `Data` first, or malformed bytes — is a
    /// fatal handshake failure and no device is ever asked for. While
    /// streaming, a terminate message ends the session; a malformed message
    /// is reported and dropped, the buffered samples untouched; any other
    /// payload is decoded in the negotiated format and byte order and its
    /// samples pushed in order, dropping what the buffer cannot take. A
    /// second `Config` while streaming is rejected. Once terminated, the
    /// session accepts nothing: whatever arrives, nothing is buffered.
    pub fn on_bytes(&mut self, buf: &Vec<u8>) -> (r: Result<PlaybackAction, SessionError>)
        requires
            old(self).inv(),
        ensures
            final(self).inv(),
            final(self).spec_capacity() == old(self).spec_capacity(),
            match old(self).spec_state() {
                PlaybackState::AwaitingConfig => match spec_decode_config(buf@) {
                    Ok(c) => {
                        &&& r == Ok::<PlaybackAction, SessionError>(PlaybackAction::OpenDevice(c))
                        &&& final(self).spec_state() == PlaybackState::Streaming
                        &&& final(self).spec_config() == Some(c)
                        &&& final(self).samples() == Seq::<u64>::empty()
                    },
                    Err(_) => {
                        &&& r == Err::<PlaybackAction, SessionError>(SessionError::Handshake)
                        &&& final(self).spec_state() == PlaybackState::Terminated
                        &&& final(self).spec_config() is None
                        &&& final(self).samples() == Seq::<u64>::empty()
                    },
                },
                PlaybackState::Streaming => {
                    &&& final(self).spec_config() == old(self).spec_config()
                    &&& if buf@.len() >= 1 && buf@[0] == CONFIG_TAG {
                        &&& r == Err::<PlaybackAction, SessionError>(
                            SessionError::Schema(SchemaError::UnexpectedConfig),
                        )
                        &&& final(self).spec_state() == PlaybackState::Streaming
                        &&& final(self).samples() == old(self).samples()
                    } else {
                        match spec_decode_data(buf@) {
                            Ok(d) => {
                                if d.terminate {
                                    &&& r == Ok::<PlaybackAction, SessionError>(
                                        PlaybackAction::Stop,
                                    )
                                    &&& final(self).spec_state() == PlaybackState::Terminated
                                    &&& final(self).samples() == old(self).samples()
                                } else if d.payload.len() % spec_width(
                                    old(self).spec_config().unwrap().sample_format,
                                ) != 0 {
                                    &&& r == Err::<PlaybackAction, SessionError>(
                                        SessionError::Schema(SchemaError::LengthMismatch),
                                    )
                                    &&& final(self).spec_state() == PlaybackState::Streaming
                                    &&& final(self).samples() == old(self).samples()
                                } else {
                                    &&& r == Ok::<PlaybackAction, SessionError>(
                                        PlaybackAction::Continue,
                                    )
                                    &&& final(self).spec_state() == PlaybackState::Streaming
                                    &&& final(self).samples() == ring_push_all_model(
                                        old(self).samples(),
                                        old(self).spec_capacity(),
                                        decoded_payload(
                                            d.payload,
                                            spec_width(
                                                old(self).spec_config().unwrap().sample_format,
                                            ),
                                            old(self).spec_config().unwrap().byte_order,
                                        ),
                                    )
                                }
                            },
                            Err(e) => {
                                &&& r == Err::<PlaybackAction, SessionError>(
                                    SessionError::Schema(e),
                                )
                                &&& final(self).spec_state() == PlaybackState::Streaming
                                &&& final(self).samples() == old(self).samples()
                            },
                        }
                    }
                },
                PlaybackState::Terminated => {
                    &&& r == Ok::<PlaybackAction, SessionError>(PlaybackAction::Stop)
                    &&& final(self).spec_state() == PlaybackState::Terminated
                    &&& final(self).spec_config() == old(self).spec_config()
                    &&& final(self).samples() == old(self).samples()
                },
            },
    {
        match self.state {
            PlaybackState::AwaitingConfig => match deserialise_config(buf) {
                Ok(c) => {
                    proof {
                        lemma_le_value_bound(buf@.subrange(3, 7));
                        lemma_le_value_bound(buf@.subrange(7, 11));
                        lemma_pow256_values();
                    }
                    self.config = Some(c);
                    self.state = PlaybackState::Streaming;
                    Ok(PlaybackAction::OpenDevice(c))
                },
                Err(_) => {
                    self.state = PlaybackState::Terminated;
                    Err(SessionError::Handshake)
                },
            },
            PlaybackState::Streaming => {
                if buf.len() >= 1 && buf[0] == CONFIG_TAG {
                    return Err(SessionError::Schema(SchemaError::UnexpectedConfig));
                }
                match deserialise_data(buf) {
                    Ok(d) => {
                        if d.terminate {
                            self.state = PlaybackState::Terminated;
                            Ok(PlaybackAction::Stop)
                        } else {
                            let c = self.config.unwrap();
                            match decode_payload(&d.payload, c.sample_format, c.byte_order) {
                                Ok(samples) => {
                                    let ghost before = ring_contents(self.ring);
                                    let ghost cap = ring_capacity(self.ring);
                                    let ghost p = |raw: u64| fits(raw, c.sample_format);
                                    proof {
                                        assert forall|i: int|
                                            0 <= i < before.len() implies #[trigger] p(
                                            before[i],
                                        ) by {}
                                        assert forall|i: int|
                                            0 <= i < samples@.len() implies #[trigger] p(
                                            samples@[i],
                                        ) by {}
                                        lemma_ring_push_all_model_bound(before, cap, samples@);
                                        lemma_ring_push_all_model_pred(before, cap, samples@, p);
                                    }
                                    self.ring.push_all(&samples);
                                    proof {
                                        let after = ring_contents(self.ring);
                                        assert(after == ring_push_all_model(
                                            before,
                                            cap,
                                            samples@,
                                        ));
                                        assert forall|i: int|
                                            0 <= i < after.len() implies fits(
                                            #[trigger] after[i],
                                            c.sample_format,
                                        ) by {
                                            assert(p(after[i]));
                                        }
                                    }
                                    Ok(PlaybackAction::Continue)
                                },
                                Err(e) => Err(SessionError::Schema(e)),
                            }
                        }
                    },
                    Err(e) => Err(SessionError::Schema(e)),
                }
            },
            PlaybackState::Terminated => Ok(PlaybackAction::Stop),
        }
    }

    /// The device callback's pull: the oldest buffered sample, or silence —
    /// the all-zero bit pattern — when the buffer has run empty, so that
    /// the audio clock never stalls on underflow.
    pub fn next_sample(&mut self) -> (r: u64)
        requires
            old(self).inv(),
        ensures
            final(self).inv(),
            final(self).spec_state() == old(self).spec_state(),
            final(self).spec_config() == old(self).spec_config(),
            final(self).spec_capacity() == old(self).spec_capacity(),
            if old(self).samples().len() == 0 {
                r == 0u64 && final(self).samples() == old(self).samples()
            } else {
                r == old(self).samples().first() && final(self).samples() == old(
                    self,
                ).samples().drop_first()
            },
    {
        match self.ring.pop() {
            Some(raw) => raw,
            None => 0,
        }
    }
}

} // verus!
