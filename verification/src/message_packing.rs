//! Wire codec: audio chunks to and from their binary form, and the sequence
//! counters that let a receiver notice lost chunks.

use vstd::prelude::*;

verus! {

/// Protocol version stamped on every chunk this codec emits, and the only one it accepts.
pub const VERSION: u16 = 1;

/// Size, in frames, of the device buffer asked of the audio collaborator.
pub const BUFFER_SIZE: u32 = 2;

/// Duration of audio, in milliseconds, that a sender batches into one chunk.
pub const FRAME_DURATION_MS: u64 = 1;

/// One scalar of 16-bit signed PCM.
pub type AudioNum = i16;

/// What travels in a datagram: `Ok` is a sound chunk, as
/// `(version, sequence, sample_rate, channel_count, samples)`;
/// `Err(())` is the reserved kind that carries nothing yet.
pub type WireMessage = Result<(u16, u16, u32, u16, Vec<AudioNum>), ()>;

/// Mathematical form of a [`WireMessage`].
pub type WireModel = Result<(u16, u16, u32, u16, Seq<AudioNum>), ()>;

/// The bytes that `bitcode::encode` gives for a message.
pub uninterp spec fn wire_encoding(message: Result<(u16, u16, u32, u16, Seq<i16>), ()>) -> Seq<u8>;

/// What `bitcode::decode` makes of a buffer: `None` where it reports an error.
pub uninterp spec fn wire_decoding(bytes: Seq<u8>) -> Option<Result<(u16, u16, u32, u16, Seq<i16>), ()>>;

/// The model of a message held in memory.
pub open spec fn wire_model(message: WireMessage) -> WireModel {
    match message {
        Ok((version, sequence, sample_rate, channel_count, samples)) => Ok(
            (version, sequence, sample_rate, channel_count, samples@),
        ),
        Err(_) => Err(()),
    }
}

/// A decoded sound chunk.
pub struct AudioFrame {
    pub protocol_version: u16,
    pub sequence: u16,
    pub sample_rate: u32,
    pub channel_count: u16,
    pub samples: Vec<AudioNum>,
}

/// Mathematical form of an [`AudioFrame`].
pub ghost struct FrameModel {
    pub protocol_version: u16,
    pub sequence: u16,
    pub sample_rate: u32,
    pub channel_count: u16,
    pub samples: Seq<AudioNum>,
}

impl View for AudioFrame {
    type V = FrameModel;

    open spec fn view(&self) -> FrameModel {
        FrameModel {
            protocol_version: self.protocol_version,
            sequence: self.sequence,
            sample_rate: self.sample_rate,
            channel_count: self.channel_count,
            samples: self.samples@,
        }
    }
}

impl FrameModel {
    /// Whether the samples split evenly into frames of `channel_count` scalars.
    pub open spec fn is_interleaved(self) -> bool {
        self.channel_count > 0 && (self.samples.len() as int) % (self.channel_count as int) == 0
    }
}

impl AudioFrame {
    /// Whether the samples split evenly into frames of `channel_count` scalars.
    pub fn is_interleaved(&self) -> (aligned: bool)
        ensures
            aligned == self@.is_interleaved(),
    {
        self.channel_count > 0 && self.samples.len() % (self.channel_count as usize) == 0
    }
}

/// The frame that a message stands for: a sound chunk of this codec's version
/// whose samples make whole frames. The reserved kind, chunks of another
/// version and chunks that break off inside a frame stand for none.
pub open spec fn accepted_frame(message: WireModel) -> Option<FrameModel> {
    match message {
        Ok((version, sequence, sample_rate, channel_count, samples)) => {
            let frame = FrameModel {
                protocol_version: version,
                sequence,
                sample_rate,
                channel_count,
                samples,
            };
            if version == VERSION && frame.is_interleaved() {
                Some(frame)
            } else {
                None
            }
        },
        Err(_) => None,
    }
}

/// The frame that a buffer decodes to, given what the decoder made of it.
pub open spec fn decoded_frame(decoded: Option<WireModel>) -> Option<FrameModel> {
    match decoded {
        Some(message) => accepted_frame(message),
        None => None,
    }
}

/// The model of a frame that may be missing.
pub open spec fn frame_model(frame: Option<AudioFrame>) -> Option<FrameModel> {
    match frame {
        Some(f) => Some(f@),
        None => None,
    }
}

/// Send-side sequence counter: starts at 0 and wraps past 65535.
pub struct SequenceCounter {
    next: u16,
}

/// The successor of a sequence number, wrapping past 65535.
pub open spec fn sequence_after(sequence: u16) -> u16 {
    if sequence == u16::MAX {
        0
    } else {
        (sequence + 1) as u16
    }
}

/// The successor of a sequence number, wrapping past 65535.
pub fn next_sequence(sequence: u16) -> (successor: u16)
    ensures
        successor == sequence_after(sequence),
{
    if sequence == u16::MAX {
        0
    } else {
        sequence + 1
    }
}

impl SequenceCounter {
    /// The number that the next chunk will carry.
    pub closed spec fn upcoming(&self) -> u16 {
        self.next
    }

    /// A counter whose first number is 0.
    pub fn new() -> (counter: SequenceCounter)
        ensures
            counter.upcoming() == 0,
    {
        SequenceCounter { next: 0 }
    }

    /// The number that the next chunk will carry.
    pub fn peek(&self) -> (sequence: u16)
        ensures
            sequence == self.upcoming(),
    {
        self.next
    }

    /// Hands out the current number and moves on to its successor.
    pub fn advance(&mut self) -> (sequence: u16)
        ensures
            sequence == old(self).upcoming(),
            final(self).upcoming() == sequence_after(old(self).upcoming()),
    {
        let sequence: u16 = self.next;
        self.next = next_sequence(sequence);
        sequence
    }
}

/// `bitcode::encode` on a message. The bytes are a function of the message alone,
/// and `bitcode::decode` gives the message back from them, as the crate's
/// documentation shows for every encodable value.
#[verifier::external_body]
fn bitcode_encode(message: &Result<(u16, u16, u32, u16, Vec<i16>), ()>) -> (bytes: Vec<u8>)
    ensures
        bytes@ == wire_encoding(wire_model(*message)),
        wire_decoding(bytes@) == Some(wire_model(*message)),
{
    bitcode::encode(message)
}

/// `bitcode::decode` on a buffer, at the type of a message. The outcome is a
/// function of the bytes alone; an error of the decoder is the `None` of
/// [`wire_decoding`].
#[verifier::external_body]
fn bitcode_decode(bytes: &[u8]) -> (decoded: Result<
    Result<(u16, u16, u32, u16, Vec<i16>), ()>,
    bitcode::Error,
>)
    ensures
        match decoded {
            Ok(message) => wire_decoding(bytes@) == Some(wire_model(message)),
            Err(_) => wire_decoding(bytes@) is None,
        },
{
    bitcode::decode(bytes)
}

/// `bitcode::Error`, the decoder's error: carried through, never looked into.
#[verifier::external_type_specification]
#[verifier::external_body]
pub struct ExBitcodeError(bitcode::Error);

/// How many scalars make one chunk: the samples of all channels over
/// [`FRAME_DURATION_MS`], rounded down.
pub open spec fn chunk_len(sample_rate: u32, n_audio_channels: u16) -> nat {
    ((n_audio_channels as nat) * (sample_rate as nat) * (FRAME_DURATION_MS as nat)) / 1000
}

/// How many scalars a sender batches into one chunk.
pub fn samples_per_chunk(sample_rate: u32, n_audio_channels: u16) -> (len: u64)
    ensures
        len == chunk_len(sample_rate, n_audio_channels),
{
    let channels: u64 = n_audio_channels as u64;
    let rate: u64 = sample_rate as u64;
    assert(channels * rate <= 0xffff * 0xffff_ffff) by (nonlinear_arith)
        requires
            channels <= 0xffff,
            rate <= 0xffff_ffff,
    ;
    (channels * rate * FRAME_DURATION_MS) / 1000
}

/// A copy of the samples.
fn copy_samples(data: &Vec<AudioNum>) -> (copy: Vec<AudioNum>)
    ensures
        copy@ == data@,
{
    let mut copy: Vec<AudioNum> = Vec::with_capacity(data.len());
    let mut i: usize = 0;
    while i < data.len()
        invariant
            i <= data.len(),
            copy@ == data@.take(i as int),
        decreases data.len() - i,
    {
        copy.push(data[i]);
        i += 1;
    }
    copy
}

/// Encodes one sound chunk: stamps it with this codec's version and the
/// counter's current number, and moves the counter on.
///
/// Where the samples make whole frames of `n_audio_channels` scalars, the
/// bytes decode back to the same samples, sample rate and channel count; where
/// they do not, the bytes decode to no frame.
pub fn pack_data(
    counter: &mut SequenceCounter,
    data: &Vec<AudioNum>,
    sample_rate: u32,
    n_audio_channels: u16,
) -> (bytes: Vec<u8>)
    ensures
        bytes@ == wire_encoding(
            Ok((VERSION, old(counter).upcoming(), sample_rate, n_audio_channels, data@)),
        ),
        final(counter).upcoming() == sequence_after(old(counter).upcoming()),
        decoded_frame(wire_decoding(bytes@)) == accepted_frame(
            Ok((VERSION, old(counter).upcoming(), sample_rate, n_audio_channels, data@)),
        ),
        n_audio_channels > 0 && (data@.len() as int) % (n_audio_channels as int) == 0 ==> decoded_frame(
            wire_decoding(bytes@),
        ) == Some(
            FrameModel {
                protocol_version: VERSION,
                sequence: old(counter).upcoming(),
                sample_rate,
                channel_count: n_audio_channels,
                samples: data@,
            },
        ),
{
    let sequence: u16 = counter.advance();
    let message: WireMessage = Ok(
        (VERSION, sequence, sample_rate, n_audio_channels, copy_samples(data)),
    );
    bitcode_encode(&message)
}

/// The frame that a decoded message stands for, if it is a sound chunk of this
/// codec's version whose samples make whole frames.
pub fn frame_of_message(message: WireMessage) -> (frame: Option<AudioFrame>)
    ensures
        frame_model(frame) == accepted_frame(wire_model(message)),
{
    match message {
        Ok((version, sequence, sample_rate, channel_count, samples)) => {
            let frame = AudioFrame {
                protocol_version: version,
                sequence,
                sample_rate,
                channel_count,
                samples,
            };
            if version == VERSION && frame.is_interleaved() {
                Some(frame)
            } else {
                None
            }
        },
        Err(_) => None,
    }
}

/// Decodes one datagram. Gives no frame where the bytes are not a message, where
/// the message is of the reserved kind, where its version is not this codec's,
/// or where its samples do not make whole frames of its channel count.
pub fn unpack_data(incoming_data: &[u8]) -> (frame: Option<AudioFrame>)
    ensures
        frame_model(frame) == decoded_frame(wire_decoding(incoming_data@)),
{
    match bitcode_decode(incoming_data) {
        Ok(message) => frame_of_message(message),
        Err(_) => None,
    }
}

} // verus!
