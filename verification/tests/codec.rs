use audio_relay::message_packing::{
    frame_of_message, next_sequence, pack_data, samples_per_chunk, unpack_data, AudioFrame, SequenceCounter,
    WireMessage, BUFFER_SIZE, FRAME_DURATION_MS, VERSION,
};

#[test]
fn round_trip_keeps_samples_rate_and_channels() {
    let mut counter = SequenceCounter::new();
    let samples: Vec<i16> = vec![1, -1, 2, -2];
    let bytes = pack_data(&mut counter, &samples, 48000, 2);
    let frame = unpack_data(&bytes).expect("a frame");
    assert_eq!(frame.samples, samples);
    assert_eq!(frame.sample_rate, 48000);
    assert_eq!(frame.channel_count, 2);
    assert_eq!(frame.protocol_version, VERSION);
    assert_eq!(frame.sequence, 0);
}

#[test]
fn round_trip_of_an_empty_chunk() {
    let mut counter = SequenceCounter::new();
    let samples: Vec<i16> = Vec::new();
    let bytes = pack_data(&mut counter, &samples, 0, 2);
    let frame = unpack_data(&bytes).expect("a frame");
    assert!(frame.samples.is_empty());
    assert_eq!(frame.sample_rate, 0);
    assert_eq!(frame.channel_count, 2);
}

#[test]
fn chunk_without_channels_gives_no_frame() {
    let mut counter = SequenceCounter::new();
    assert!(unpack_data(&pack_data(&mut counter, &Vec::new(), 48000, 0)).is_none());
    assert!(unpack_data(&pack_data(&mut counter, &vec![1, 2], 48000, 0)).is_none());
    assert_eq!(counter.peek(), 2);
    let chunk: WireMessage = Ok((VERSION, 0, 48000, 0, Vec::new()));
    assert!(frame_of_message(chunk).is_none());
}

#[test]
fn chunk_that_breaks_off_inside_a_frame_gives_no_frame() {
    let mut counter = SequenceCounter::new();
    assert!(unpack_data(&pack_data(&mut counter, &vec![1, 2, 3], 48000, 2)).is_none());
    assert!(unpack_data(&pack_data(&mut counter, &vec![1], 48000, 3)).is_none());
    assert!(unpack_data(&pack_data(&mut counter, &vec![1, 2, 3], 48000, 3)).is_some());
    let chunk: WireMessage = Ok((VERSION, 0, 48000, 2, vec![1, 2, 3]));
    assert!(frame_of_message(chunk).is_none());
}

#[test]
fn every_frame_handed_out_is_made_of_whole_frames() {
    let mut counter = SequenceCounter::new();
    for channels in 0..5u16 {
        for len in 0..13usize {
            let samples: Vec<i16> = vec![3; len];
            let bytes = pack_data(&mut counter, &samples, 8000, channels);
            let whole = channels > 0 && len % (channels as usize) == 0;
            match unpack_data(&bytes) {
                Some(frame) => {
                    assert!(whole);
                    assert!(frame.is_interleaved());
                    assert_eq!(frame.samples, samples);
                    assert_eq!(frame.channel_count, channels);
                }
                None => assert!(!whole),
            }
        }
    }
}

#[test]
fn round_trip_of_extreme_values() {
    let mut counter = SequenceCounter::new();
    let samples: Vec<i16> = vec![i16::MIN, i16::MAX, 0, -1, 1, 12345, -12345];
    let bytes = pack_data(&mut counter, &samples, u32::MAX, 7);
    let frame = unpack_data(&bytes).expect("a frame");
    assert_eq!(frame.samples, samples);
    assert_eq!(frame.sample_rate, u32::MAX);
    assert_eq!(frame.channel_count, 7);
    let many: Vec<i16> = vec![-7; 65535];
    let bytes = pack_data(&mut counter, &many, 1, u16::MAX);
    let frame = unpack_data(&bytes).expect("a frame");
    assert_eq!(frame.samples, many);
    assert_eq!(frame.channel_count, u16::MAX);
}

#[test]
fn round_trip_of_a_long_chunk() {
    let mut counter = SequenceCounter::new();
    let mut samples: Vec<i16> = Vec::new();
    for i in 0..4000i32 {
        samples.push(((i * 37) % 65536 - 32768) as i16);
    }
    let bytes = pack_data(&mut counter, &samples, 44100, 2);
    let frame = unpack_data(&bytes).expect("a frame");
    assert_eq!(frame.samples, samples);
}

#[test]
fn encoding_is_not_the_identity_on_its_input() {
    let mut counter = SequenceCounter::new();
    let samples: Vec<i16> = vec![7, 8, 9];
    let first = pack_data(&mut counter, &samples, 8000, 1);
    let second = pack_data(&mut counter, &samples, 8000, 1);
    assert!(!first.is_empty());
    assert_ne!(first, second);
    assert_eq!(unpack_data(&first).expect("a frame").sequence, 0);
    assert_eq!(unpack_data(&second).expect("a frame").sequence, 1);
}

#[test]
fn sequence_numbers_count_up_from_zero() {
    let mut counter = SequenceCounter::new();
    assert_eq!(counter.peek(), 0);
    assert_eq!(counter.advance(), 0);
    assert_eq!(counter.advance(), 1);
    assert_eq!(counter.advance(), 2);
    assert_eq!(counter.peek(), 3);
}

#[test]
fn sequence_numbers_wrap_past_the_largest() {
    assert_eq!(next_sequence(0), 1);
    assert_eq!(next_sequence(65534), 65535);
    assert_eq!(next_sequence(65535), 0);
    let mut counter = SequenceCounter::new();
    let samples: Vec<i16> = vec![0];
    let mut last = Vec::new();
    for _ in 0..65537u32 {
        last = pack_data(&mut counter, &samples, 8000, 1);
    }
    assert_eq!(unpack_data(&last).expect("a frame").sequence, 0);
    assert_eq!(counter.peek(), 1);
}

#[test]
fn empty_buffer_gives_no_frame() {
    assert!(unpack_data(&[]).is_none());
}

#[test]
fn garbage_gives_no_frame() {
    assert!(unpack_data(&[0xff; 7]).is_none());
    assert!(unpack_data(&[0x00]).is_none());
    let mut noise: Vec<u8> = Vec::new();
    let mut state: u32 = 12345;
    for _ in 0..300 {
        state = state.wrapping_mul(1664525).wrapping_add(1013904223);
        noise.push((state >> 24) as u8);
        let _ = unpack_data(&noise);
    }
}

#[test]
fn truncated_chunk_gives_no_frame() {
    let mut counter = SequenceCounter::new();
    let samples: Vec<i16> = vec![100, -200, 300, -400, 500, -600];
    let bytes = pack_data(&mut counter, &samples, 48000, 2);
    for cut in 0..bytes.len() {
        assert!(unpack_data(&bytes[..cut]).is_none(), "cut at {}", cut);
    }
}

#[test]
fn trailing_bytes_give_no_frame() {
    let mut counter = SequenceCounter::new();
    let samples: Vec<i16> = vec![1, 2, 3, 4];
    let mut bytes = pack_data(&mut counter, &samples, 48000, 2);
    bytes.push(0);
    assert!(unpack_data(&bytes).is_none());
}

#[test]
fn reserved_kind_gives_no_frame() {
    let other: WireMessage = Err(());
    assert!(frame_of_message(other).is_none());
    let bytes = bitcode::encode(&Err::<(u16, u16, u32, u16, Vec<i16>), ()>(()));
    assert!(unpack_data(&bytes).is_none());
}

#[test]
fn other_version_gives_no_frame() {
    let newer: WireMessage = Ok((VERSION + 1, 0, 48000, 2, vec![1, 2]));
    assert!(frame_of_message(newer).is_none());
    let bytes = bitcode::encode(&Ok::<(u16, u16, u32, u16, Vec<i16>), ()>((
        VERSION + 1,
        0,
        48000,
        2,
        vec![1, 2],
    )));
    assert!(unpack_data(&bytes).is_none());
}

#[test]
fn sound_chunk_of_this_version_is_taken_as_it_is() {
    let chunk: WireMessage = Ok((VERSION, 41, 22050, 1, vec![5, -5, 6]));
    let frame: AudioFrame = frame_of_message(chunk).expect("a frame");
    assert_eq!(frame.protocol_version, 1);
    assert_eq!(frame.sequence, 41);
    assert_eq!(frame.sample_rate, 22050);
    assert_eq!(frame.channel_count, 1);
    assert_eq!(frame.samples, vec![5, -5, 6]);
}

#[test]
fn interleaving_is_a_matter_of_length_and_channels() {
    let frame = |channel_count: u16, samples: Vec<i16>| AudioFrame {
        protocol_version: VERSION,
        sequence: 0,
        sample_rate: 48000,
        channel_count,
        samples,
    };
    assert!(frame(2, vec![1, 2, 3, 4]).is_interleaved());
    assert!(frame(2, vec![]).is_interleaved());
    assert!(!frame(2, vec![1, 2, 3]).is_interleaved());
    assert!(!frame(0, vec![]).is_interleaved());
    assert!(frame(1, vec![9]).is_interleaved());
}

#[test]
fn constants_of_the_protocol() {
    assert_eq!(VERSION, 1);
    assert_eq!(BUFFER_SIZE, 2);
    assert_eq!(FRAME_DURATION_MS, 1);
}

#[test]
fn chunk_length_follows_rate_and_channels() {
    assert_eq!(samples_per_chunk(48000, 2), 96);
    assert_eq!(samples_per_chunk(44100, 2), 88);
    assert_eq!(samples_per_chunk(44100, 1), 44);
    assert_eq!(samples_per_chunk(8000, 1), 8);
    assert_eq!(samples_per_chunk(999, 1), 0);
    assert_eq!(samples_per_chunk(0, 2), 0);
    assert_eq!(samples_per_chunk(48000, 0), 0);
    assert_eq!(samples_per_chunk(u32::MAX, u16::MAX), 281_470_681_677);
}
