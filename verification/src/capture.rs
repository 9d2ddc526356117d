//! The capture session: turn device samples into outbound wire messages.
//!
//! The device callback pushes captured samples into the ring buffer and
//! never blocks; a socket loop drains the buffer on its own cadence, wraps
//! what it finds in one `Data` message, and sends it. The session is the
//! decision half of that loop: it yields the encoded bytes and the caller
//! owns the socket.

use vstd::prelude::*;

use crate::codec::spec_encode_config;
use crate::codec::spec_encode_data;
use crate::codec::serialise;
use crate::message::Config;
use crate::message::DataView;
use crate::message::Message;
use crate::message::config_wf;
use crate::message::create_audio_message;
use crate::message::create_terminate_message;
use crate::ring::RingBuffer;
use crate::ring::lemma_ring_push_all_model_bound;
use crate::ring::lemma_ring_push_all_model_pred;
use crate::ring::ring_capacity;
use crate::ring::ring_contents;
use crate::ring::ring_push_all_model;
use crate::sample::encoded_payload;
use crate::sample::fits;
use crate::sample::lemma_encoded_payload_len;
use crate::sample::spec_width;

verus! {

/// Where a capture session stands.
#[derive(Clone, Copy, Debug, PartialEq, Eq, Structural)]
pub enum CaptureState {
    Idle,
    Streaming,
    Terminated,
}

/// The largest ring-buffer capacity a capture session takes: small enough
/// that any drained batch, encoded at eight bytes a sample, still fits the
/// wire format's length field.
pub const MAX_CAPTURE_CAPACITY: usize = 0x0fff_ffff;

/// One capture session: the sending end of a stream.
pub struct CaptureSession {
    state: CaptureState,
    config: Config,
    ring: RingBuffer,
}

impl CaptureSession {
    /// The session's well-formedness: the configuration is well formed,
    /// the ring buffer keeps a fixed capacity in bounds and never
    /// overfills, and every held sample fits the format's width.
    pub closed spec fn inv(self) -> bool {
        &&& config_wf(self.config)
        &&& 1 <= ring_capacity(self.ring) <= MAX_CAPTURE_CAPACITY
        &&& ring_contents(self.ring).len() <= ring_capacity(self.ring)
        &&& forall|i: int|
            0 <= i < ring_contents(self.ring).len() ==> fits(
                #[trigger] ring_contents(self.ring)[i],
                self.config.sample_format,
            )
    }

    pub closed spec fn spec_state(self) -> CaptureState {
        self.state
    }

    pub closed spec fn spec_config(self) -> Config {
        self.config
    }

    /// The samples waiting in the ring buffer, oldest first.
    pub closed spec fn samples(self) -> Seq<u64> {
        ring_contents(self.ring)
    }

    pub closed spec fn spec_capacity(self) -> nat {
        ring_capacity(self.ring)
    }

    /// A fresh, idle session for one negotiated configuration. The
    /// capacity is the ring buffer's, fixed for the session's life.
    pub fn new(config: Config, capacity: usize) -> (s: CaptureSession)
        requires
            config_wf(config),
            1 <= capacity <= MAX_CAPTURE_CAPACITY,
        ensures
            s.inv(),
            s.spec_state() == CaptureState::Idle,
            s.spec_config() == config,
            s.samples() == Seq::<u64>::empty(),
            s.spec_capacity() == capacity as nat,
    {
        CaptureSession { state: CaptureState::Idle, config, ring: RingBuffer::new(capacity) }
    }

    pub fn state(&self) -> (r: CaptureState)
        ensures
            r == self.spec_state(),
    {
        self.state
    }

    pub fn config(&self) -> (r: Config)
        ensures
            r == self.spec_config(),
    {
        self.config
    }

    /// Begins streaming. Yields the one `Config` message of the session,
    /// encoded for the wire; it must reach the peer before any data.
    pub fn start(&mut self) -> (r: Vec<u8>)
        requires
            old(self).inv(),
            old(self).spec_state() == CaptureState::Idle,
        ensures
            final(self).inv(),
            final(self).spec_state() == CaptureState::Streaming,
            final(self).spec_config() == old(self).spec_config(),
            final(self).spec_capacity() == old(self).spec_capacity(),
            final(self).samples() == old(self).samples(),
            r@ == spec_encode_config(old(self).spec_config()),
    {
        self.state = CaptureState::Streaming;
        serialise(&Message::Config(self.config))
    }

    /// The device callback's push: every captured sample in order, each
    /// push non-blocking and best-effort — whatever the buffer cannot take
    /// is dropped, newest first, and the prior contents stay untouched.
    pub fn capture_samples(&mut self, samples: &Vec<u64>)
        requires
            old(self).inv(),
            old(self).spec_state() == CaptureState::Streaming,
            forall|i: int|
                0 <= i < samples@.len() ==> fits(
                    #[trigger] samples@[i],
                    old(self).spec_config().sample_format,
                ),
        ensures
            final(self).inv(),
            final(self).spec_state() == old(self).spec_state(),
            final(self).spec_config() == old(self).spec_config(),
            final(self).spec_capacity() == old(self).spec_capacity(),
            final(self).samples() == ring_push_all_model(
                old(self).samples(),
                old(self).spec_capacity(),
                samples@,
            ),
    {
        let ghost before = ring_contents(self.ring);
        let ghost cap = ring_capacity(self.ring);
        let ghost p = |raw: u64| fits(raw, self.config.sample_format);
        proof {
            assert forall|i: int| 0 <= i < before.len() implies #[trigger] p(before[i]) by {}
            assert forall|i: int| 0 <= i < samples@.len() implies #[trigger] p(samples@[i]) by {}
            lemma_ring_push_all_model_bound(before, cap, samples@);
            lemma_ring_push_all_model_pred(before, cap, samples@, p);
        }
        self.ring.push_all(samples);
        proof {
            let after = ring_contents(self.ring);
            assert(after == ring_push_all_model(before, cap, samples@));
            assert forall|i: int|
                0 <= i < after.len() implies fits(
                #[trigger] after[i],
                self.config.sample_format,
            ) by {
                assert(p(after[i]));
            }
        }
    }

    /// Drains up to `max` of the oldest buffered samples into one outbound
    /// `Data` message, encoded for the wire in the session's format and
    /// byte order. Yields nothing when nothing waited — no empty messages
    /// go out.
    pub fn drain(&mut self, max: usize) -> (r: Option<Vec<u8>>)
        requires
            old(self).inv(),
            old(self).spec_state() == CaptureState::Streaming,
        ensures
            final(self).inv(),
            final(self).spec_state() == old(self).spec_state(),
            final(self).spec_config() == old(self).spec_config(),
            final(self).spec_capacity() == old(self).spec_capacity(),
            ({
                let k = if max as int <= old(self).samples().len() {
                    max as int
                } else {
                    old(self).samples().len() as int
                };
                match r {
                    Some(bytes) => {
                        &&& k > 0
                        &&& bytes@ == spec_encode_data(
                            DataView {
                                terminate: false,
                                payload: encoded_payload(
                                    old(self).samples().take(k),
                                    spec_width(old(self).spec_config().sample_format),
                                    old(self).spec_config().byte_order,
                                ),
                            },
                        )
                        &&& final(self).samples() == old(self).samples().skip(k)
                    },
                    None => {
                        &&& k == 0
                        &&& final(self).samples() == old(self).samples()
                    },
                }
            }),
    {
        let popped = self.ring.pop_up_to(max);
        if popped.len() == 0 {
            proof {
                assert(ring_contents(self.ring) =~= ring_contents(self.ring).skip(0));
            }
            return None;
        }
        proof {
            lemma_encoded_payload_len(
                popped@,
                spec_width(self.config.sample_format),
                self.config.byte_order,
            );
            assert(popped@.len() * spec_width(self.config.sample_format) <= popped@.len() * 8)
                by (nonlinear_arith)
                requires
                    spec_width(self.config.sample_format) <= 8,
                    popped@.len() >= 0,
            ;
            assert(popped@.len() * 8 <= MAX_CAPTURE_CAPACITY * 8) by (nonlinear_arith)
                requires
                    popped@.len() <= MAX_CAPTURE_CAPACITY,
            ;
        }
        let data = create_audio_message(&popped, self.config.sample_format, self.config.byte_order);
        let bytes = serialise(&Message::Data(data));
        Some(bytes)
    }

    /// Ends the session in order. Yields the terminate message, encoded
    /// for the wire: the last message the peer will see. Whatever still
    /// waited in the buffer is left behind.
    pub fn stop(&mut self) -> (r: Vec<u8>)
        requires
            old(self).inv(),
            old(self).spec_state() == CaptureState::Streaming,
        ensures
            final(self).inv(),
            final(self).spec_state() == CaptureState::Terminated,
            final(self).spec_config() == old(self).spec_config(),
            final(self).spec_capacity() == old(self).spec_capacity(),
            final(self).samples() == old(self).samples(),
            r@ == spec_encode_data(DataView { terminate: true, payload: Seq::<u8>::empty() }),
    {
        self.state = CaptureState::Terminated;
        let data = create_terminate_message();
        serialise(&Message::Data(data))
    }
}

} // verus!
