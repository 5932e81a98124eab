//! One playback session: the samples waiting to be played for one sender and
//! format, the time of the last arrival, and the sender's sequence numbers.

use crate::message_packing::{next_sequence, sequence_after, AudioNum};
use std::collections::VecDeque;
use vstd::prelude::*;

verus! {

/// Address of a sender, as plain numbers. An IPv4 address fills the low 32 bits
/// of `ip` and leaves `flowinfo` and `scope_id` at 0.
#[derive(Clone, Copy, Debug, PartialEq, Eq, Structural, Hash)]
pub struct SenderAddr {
    pub is_v6: bool,
    pub ip: u128,
    pub port: u16,
    pub flowinfo: u32,
    pub scope_id: u32,
}

/// Identity of one audio stream: who sends it, and in which format.
/// Two keys that differ in any field name different sessions.
#[derive(Clone, Copy, Debug, PartialEq, Eq, Structural, Hash)]
pub struct StreamerKey {
    pub emiter_ip: SenderAddr,
    pub sample_rate: u32,
    pub n_audio_channels: u16,
}

/// Mathematical form of a [`Streamer`].
pub ghost struct StreamerModel {
    /// Identifier under which the playback handle is stored.
    pub stream_id: u32,
    /// Time of the last routed chunk, in milliseconds.
    pub last_recv: u64,
    /// Samples received and not yet played, oldest first.
    pub pending: Seq<AudioNum>,
    /// Whether the consumer has ended; chunks that arrive afterwards are dropped.
    pub consumer_gone: bool,
    /// Sequence number that the next chunk should carry.
    pub expected_sequence: u16,
    /// How many times a chunk carried another number than expected.
    pub lost_chunks: u64,
}

/// The first `count` scalars of `pending`, with zeros where `pending` runs out.
pub open spec fn silence_padded(pending: Seq<AudioNum>, count: nat) -> Seq<AudioNum> {
    Seq::new(
        count,
        |i: int|
            if i < pending.len() {
                pending[i]
            } else {
                0i16
            },
    )
}

/// Time passed between `last_recv` and `now`; none where the clock reads earlier.
pub open spec fn elapsed_since(last_recv: u64, now: u64) -> nat {
    if now >= last_recv {
        (now - last_recv) as nat
    } else {
        0
    }
}

/// Whether a session last fed at `last_recv` has been idle for `idle_timeout`
/// or longer at `now`.
pub fn idle_at(last_recv: u64, now: u64, idle_timeout: u64) -> (idle: bool)
    ensures
        idle == (elapsed_since(last_recv, now) >= idle_timeout),
{
    let elapsed: u64 = if now >= last_recv {
        now - last_recv
    } else {
        0
    };
    elapsed >= idle_timeout
}

impl StreamerModel {
    /// A session just created: nothing pending, nothing lost, sequence 0 expected.
    pub open spec fn fresh(stream_id: u32, now: u64) -> StreamerModel {
        StreamerModel {
            stream_id,
            last_recv: now,
            pending: Seq::empty(),
            consumer_gone: false,
            expected_sequence: 0,
            lost_chunks: 0,
        }
    }

    /// The session after a chunk arrived at `now`: the samples join the queue
    /// and the idle clock restarts, never running backwards. A session whose
    /// consumer is gone takes nothing in and stays as it is.
    pub open spec fn pushed(self, samples: Seq<AudioNum>, now: u64) -> StreamerModel {
        if self.consumer_gone {
            self
        } else {
            StreamerModel {
                last_recv: if now > self.last_recv {
                    now
                } else {
                    self.last_recv
                },
                pending: self.pending + samples,
                ..self
            }
        }
    }

    /// The session after a chunk numbered `sequence` was seen: a number other
    /// than the expected one counts as one loss, and the expectation moves to
    /// the successor of the number seen.
    pub open spec fn observed(self, sequence: u16) -> StreamerModel {
        StreamerModel {
            expected_sequence: sequence_after(sequence),
            lost_chunks: if sequence != self.expected_sequence && self.lost_chunks < u64::MAX {
                (self.lost_chunks + 1) as u64
            } else {
                self.lost_chunks
            },
            ..self
        }
    }

    /// The session after the consumer took `count` scalars.
    pub open spec fn pulled(self, count: nat) -> StreamerModel {
        StreamerModel {
            pending: if count < self.pending.len() {
                self.pending.skip(count as int)
            } else {
                Seq::empty()
            },
            ..self
        }
    }

    /// The session after its consumer ended.
    pub open spec fn disconnected(self) -> StreamerModel {
        StreamerModel { consumer_gone: true, ..self }
    }

    /// Whether the session has gone without a chunk for `idle_timeout` or longer.
    pub open spec fn is_idle(self, now: u64, idle_timeout: u64) -> bool {
        elapsed_since(self.last_recv, now) >= idle_timeout
    }
}

/// Receiver-side state of one stream.
pub struct Streamer {
    stream_id: u32,
    last_recv: u64,
    inbound: VecDeque<AudioNum>,
    consumer_gone: bool,
    expected_sequence: u16,
    lost_chunks: u64,
}

impl View for Streamer {
    type V = StreamerModel;

    closed spec fn view(&self) -> StreamerModel {
        StreamerModel {
            stream_id: self.stream_id,
            last_recv: self.last_recv,
            pending: self.inbound@,
            consumer_gone: self.consumer_gone,
            expected_sequence: self.expected_sequence,
            lost_chunks: self.lost_chunks,
        }
    }
}

impl Streamer {
    /// A session created at `now`, whose playback handle is stored under `stream_id`.
    pub fn new(stream_id: u32, now: u64) -> (streamer: Streamer)
        ensures
            streamer@ == StreamerModel::fresh(stream_id, now),
    {
        Streamer {
            stream_id,
            last_recv: now,
            inbound: VecDeque::new(),
            consumer_gone: false,
            expected_sequence: 0,
            lost_chunks: 0,
        }
    }

    /// Takes in a chunk that arrived at `now`.
    pub fn process(&mut self, data: Vec<AudioNum>, now: u64)
        ensures
            final(self)@ == old(self)@.pushed(data@, now),
    {
        self.feed(data.as_slice(), now);
    }

    /// Takes in the samples of a chunk that arrived at `now`: queues them and
    /// restarts the idle clock. Does nothing once the consumer is gone.
    pub fn feed(&mut self, data: &[AudioNum], now: u64)
        ensures
            final(self)@ == old(self)@.pushed(data@, now),
    {
        if !self.consumer_gone {
            if now > self.last_recv {
                self.last_recv = now;
            }
            self.append(data);
        }
    }

    /// Queues the samples behind those that wait, whatever the state of the consumer.
    pub(crate) fn append(&mut self, data: &[AudioNum])
        ensures
            final(self)@ == (StreamerModel {
                pending: old(self)@.pending + data@,
                ..old(self)@
            }),
    {
        let mut i: usize = 0;
        while i < data.len()
            invariant
                i <= data.len(),
                self.inbound@ == old(self).inbound@ + data@.take(i as int),
                self.stream_id == old(self).stream_id,
                self.consumer_gone == old(self).consumer_gone,
                self.expected_sequence == old(self).expected_sequence,
                self.lost_chunks == old(self).lost_chunks,
                self.last_recv == old(self).last_recv,
            decreases data.len() - i,
        {
            self.inbound.push_back(data[i]);
            i += 1;
            assert(data@.take(i as int) == data@.take(i - 1).push(data@[i - 1]));
        }
        assert(data@.take(data.len() as int) == data@);
    }

    /// Checks a chunk's sequence number against the expected one and says
    /// whether a loss was detected. The chunk itself is not refused.
    pub fn observe(&mut self, sequence: u16) -> (lost: bool)
        ensures
            lost == (sequence != old(self)@.expected_sequence),
            final(self)@ == old(self)@.observed(sequence),
    {
        let lost: bool = sequence != self.expected_sequence;
        if lost && self.lost_chunks < u64::MAX {
            self.lost_chunks = self.lost_chunks + 1;
        }
        self.expected_sequence = next_sequence(sequence);
        lost
    }

    /// Hands the consumer exactly `frame_size` scalars: the oldest pending ones,
    /// then silence where the queue runs out. Never waits.
    pub fn pull(&mut self, frame_size: usize) -> (frame: Vec<AudioNum>)
        ensures
            frame@.len() == frame_size,
            frame@ == silence_padded(old(self)@.pending, frame_size as nat),
            final(self)@ == old(self)@.pulled(frame_size as nat),
    {
        let mut frame: Vec<AudioNum> = Vec::with_capacity(frame_size);
        let ghost before = self.inbound@;
        let mut i: usize = 0;
        while i < frame_size
            invariant
                i <= frame_size,
                before == old(self).inbound@,
                frame@ == silence_padded(before, i as nat),
                self.inbound@ == if i < before.len() {
                    before.skip(i as int)
                } else {
                    Seq::empty()
                },
                self.stream_id == old(self).stream_id,
                self.last_recv == old(self).last_recv,
                self.consumer_gone == old(self).consumer_gone,
                self.expected_sequence == old(self).expected_sequence,
                self.lost_chunks == old(self).lost_chunks,
            decreases frame_size - i,
        {
            let sample: AudioNum = match self.inbound.pop_front() {
                Some(sample) => sample,
                None => 0,
            };
            frame.push(sample);
            i += 1;
            assert(frame@ =~= silence_padded(before, i as nat));
            assert(self.inbound@ =~= if i < before.len() {
                before.skip(i as int)
            } else {
                Seq::empty()
            });
        }
        frame
    }

    /// Records that the consumer has ended: later chunks are dropped.
    pub fn disconnect(&mut self)
        ensures
            final(self)@ == old(self)@.disconnected(),
    {
        self.consumer_gone = true;
    }

    /// Whether the session has gone without a chunk for `idle_timeout` or longer.
    pub fn is_idle(&self, now: u64, idle_timeout: u64) -> (idle: bool)
        ensures
            idle == self@.is_idle(now, idle_timeout),
    {
        idle_at(self.last_recv, now, idle_timeout)
    }

    /// Identifier under which the playback handle is stored.
    pub fn stream_id(&self) -> (id: u32)
        ensures
            id == self@.stream_id,
    {
        self.stream_id
    }

    /// Time of the last routed chunk.
    pub fn last_recv(&self) -> (at: u64)
        ensures
            at == self@.last_recv,
    {
        self.last_recv
    }

    /// How many samples wait to be played.
    pub fn pending_len(&self) -> (count: usize)
        ensures
            count == self@.pending.len(),
    {
        self.inbound.len()
    }

    /// Sequence number that the next chunk should carry.
    pub fn expected_sequence(&self) -> (sequence: u16)
        ensures
            sequence == self@.expected_sequence,
    {
        self.expected_sequence
    }

    /// How many losses were detected so far.
    pub fn lost_chunks(&self) -> (count: u64)
        ensures
            count == self@.lost_chunks,
    {
        self.lost_chunks
    }
}

} // verus!
