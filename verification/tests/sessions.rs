use audio_relay::message_packing::{pack_data, AudioFrame, SequenceCounter, VERSION};
use audio_relay::registry::{IDStream, Reception, Registry, STREAMZ_TIMEOUT_MS};
use audio_relay::streamer::{SenderAddr, Streamer, StreamerKey};

fn sender(last_octet: u8, port: u16) -> SenderAddr {
    SenderAddr {
        is_v6: false,
        ip: 0xc0a8_0000u128 + last_octet as u128,
        port,
        flowinfo: 0,
        scope_id: 0,
    }
}

fn key(last_octet: u8) -> StreamerKey {
    StreamerKey::new(sender(last_octet, 4000), 48000, 2)
}

fn handle(id: u32, name: &str) -> IDStream<String> {
    IDStream { id, handle: name.to_string() }
}

fn ids(storage: &Vec<IDStream<String>>) -> Vec<u32> {
    storage.iter().map(|entry| entry.id).collect()
}

#[test]
fn pull_from_a_fresh_session_is_silence() {
    let mut streamer = Streamer::new(3, 10);
    assert_eq!(streamer.pull(4), vec![0, 0, 0, 0]);
    assert_eq!(streamer.pull(0), Vec::<i16>::new());
    assert_eq!(streamer.stream_id(), 3);
    assert_eq!(streamer.last_recv(), 10);
    assert_eq!(streamer.pending_len(), 0);
    assert_eq!(streamer.lost_chunks(), 0);
}

#[test]
fn pull_drains_oldest_first_and_pads_with_silence() {
    let mut streamer = Streamer::new(0, 0);
    streamer.process(vec![1, 2, 3], 1);
    streamer.process(vec![4, 5], 2);
    assert_eq!(streamer.pending_len(), 5);
    assert_eq!(streamer.pull(2), vec![1, 2]);
    assert_eq!(streamer.pull(2), vec![3, 4]);
    assert_eq!(streamer.pull(4), vec![5, 0, 0, 0]);
    assert_eq!(streamer.pull(3), vec![0, 0, 0]);
    streamer.process(vec![6], 3);
    assert_eq!(streamer.pull(2), vec![6, 0]);
}

#[test]
fn pull_always_gives_the_size_asked_for() {
    let mut streamer = Streamer::new(0, 0);
    streamer.process(vec![9; 10], 0);
    for frame_size in [0usize, 1, 3, 7, 16, 1000] {
        assert_eq!(streamer.pull(frame_size).len(), frame_size);
    }
}

#[test]
fn empty_chunk_restarts_the_clock_and_adds_nothing() {
    let mut streamer = Streamer::new(0, 5);
    streamer.process(Vec::new(), 9);
    assert_eq!(streamer.last_recv(), 9);
    assert_eq!(streamer.pending_len(), 0);
    assert_eq!(streamer.pull(2), vec![0, 0]);
}

#[test]
fn clock_of_a_session_never_runs_backwards() {
    let mut streamer = Streamer::new(0, 100);
    streamer.process(vec![1], 50);
    assert_eq!(streamer.last_recv(), 100);
    streamer.process(vec![2], 100);
    assert_eq!(streamer.last_recv(), 100);
    streamer.process(vec![3], 101);
    assert_eq!(streamer.last_recv(), 101);
    assert_eq!(streamer.pull(3), vec![1, 2, 3]);
}

#[test]
fn chunk_after_the_consumer_ended_is_dropped() {
    let mut streamer = Streamer::new(0, 0);
    streamer.process(vec![1, 2], 1);
    streamer.disconnect();
    streamer.process(vec![3, 4], 7);
    streamer.feed(&[5, 6], 8);
    assert_eq!(streamer.last_recv(), 1);
    assert_eq!(streamer.pending_len(), 2);
    assert!(streamer.is_idle(5001, 5000));
    assert_eq!(streamer.pull(4), vec![1, 2, 0, 0]);
}

#[test]
fn idleness_is_measured_from_the_last_chunk() {
    let mut streamer = Streamer::new(0, 1000);
    assert!(!streamer.is_idle(1000, 5000));
    assert!(!streamer.is_idle(5999, 5000));
    assert!(streamer.is_idle(6000, 5000));
    assert!(streamer.is_idle(u64::MAX, 5000));
    assert!(!streamer.is_idle(0, 5000));
    assert!(streamer.is_idle(0, 0));
    streamer.process(vec![1], 5999);
    assert!(!streamer.is_idle(10998, 5000));
    assert!(streamer.is_idle(10999, 5000));
}

#[test]
fn one_missing_number_is_one_loss() {
    let mut streamer = Streamer::new(0, 0);
    assert!(!streamer.observe(0));
    assert!(!streamer.observe(1));
    assert!(streamer.observe(3));
    assert_eq!(streamer.lost_chunks(), 1);
    assert!(!streamer.observe(4));
    assert_eq!(streamer.lost_chunks(), 1);
}

#[test]
fn expectation_wraps_with_the_sender() {
    let mut streamer = Streamer::new(0, 0);
    assert!(streamer.observe(65535));
    assert!(!streamer.observe(0));
    assert!(!streamer.observe(1));
    assert_eq!(streamer.lost_chunks(), 1);
}

#[test]
fn repeated_number_is_a_loss_and_resynchronises() {
    let mut streamer = Streamer::new(0, 0);
    assert!(!streamer.observe(0));
    assert!(streamer.observe(0));
    assert!(!streamer.observe(1));
    assert_eq!(streamer.lost_chunks(), 1);
}

#[test]
fn new_registry_is_empty() {
    let registry = Registry::new();
    assert_eq!(registry.len(), 0);
    assert!(!registry.contains_key(&key(1)));
    assert!(registry.kill_notices().is_empty());
}

#[test]
fn open_creates_one_session_per_key() {
    let mut registry = Registry::new();
    assert_eq!(registry.open(key(1), 0), Some(0));
    assert_eq!(registry.open(key(1), 5), None);
    assert_eq!(registry.open(key(2), 5), Some(1));
    assert_eq!(registry.len(), 2);
    assert!(registry.contains_key(&key(1)));
    assert!(registry.contains_key(&key(2)));
    assert!(!registry.contains_key(&key(3)));
}

#[test]
fn keys_differ_by_any_field() {
    let base = key(1);
    let other_port = StreamerKey::new(sender(1, 4001), 48000, 2);
    let other_rate = StreamerKey::new(sender(1, 4000), 44100, 2);
    let other_channels = StreamerKey::new(sender(1, 4000), 48000, 1);
    let mut v6 = base;
    v6.emiter_ip.is_v6 = true;
    let mut scoped = v6;
    scoped.emiter_ip.scope_id = 3;
    let mut flowing = v6;
    flowing.emiter_ip.flowinfo = 9;
    let mut registry = Registry::new();
    let all = [base, other_port, other_rate, other_channels, v6, scoped, flowing];
    for (expected, k) in all.iter().enumerate() {
        assert_eq!(registry.open(*k, 0), Some(expected as u32));
    }
    assert_eq!(registry.len(), all.len());
    for k in all.iter() {
        assert_eq!(StreamerKey::at(k.index()), *k);
        assert_eq!(registry.open(*k, 0), None);
    }
}

#[test]
fn route_without_a_session_drops_the_chunk() {
    let mut registry = Registry::new();
    assert_eq!(registry.route(&key(1), 0, &[1, 2], 0), None);
    assert_eq!(registry.len(), 0);
    assert_eq!(registry.pull(&key(1), 3), vec![0, 0, 0]);
    assert_eq!(registry.len(), 0);
}

#[test]
fn interleaved_senders_do_not_mix() {
    let a = key(1);
    let b = key(2);
    let mut registry = Registry::new();
    let chunks: Vec<(StreamerKey, Vec<i16>)> = vec![
        (a, vec![1, 2]),
        (b, vec![-1, -2]),
        (a, vec![3, 4]),
        (b, vec![-3, -4]),
        (a, vec![5, 6]),
    ];
    let mut sequence_a: u16 = 0;
    let mut sequence_b: u16 = 0;
    for (k, samples) in chunks {
        if !registry.contains_key(&k) {
            assert!(registry.open(k, 0).is_some());
        }
        let sequence = if k == a { &mut sequence_a } else { &mut sequence_b };
        assert_eq!(registry.route(&k, *sequence, &samples, 0), Some(false));
        *sequence += 1;
    }
    assert_eq!(registry.len(), 2);
    assert_eq!(registry.pull(&a, 8), vec![1, 2, 3, 4, 5, 6, 0, 0]);
    assert_eq!(registry.pull(&b, 8), vec![-1, -2, -3, -4, 0, 0, 0, 0]);
}

#[test]
fn pull_through_the_registry_keeps_the_rest() {
    let mut registry = Registry::new();
    registry.open(key(1), 0);
    registry.route(&key(1), 0, &[1, 2, 3, 4, 5], 0);
    assert_eq!(registry.pull(&key(1), 2), vec![1, 2]);
    assert_eq!(registry.pull(&key(1), 2), vec![3, 4]);
    assert_eq!(registry.pull(&key(1), 2), vec![5, 0]);
    assert_eq!(registry.len(), 1);
}

#[test]
fn missing_chunk_is_flagged_once_and_later_chunk_is_delivered() {
    let mut registry = Registry::new();
    registry.open(key(1), 0);
    assert_eq!(registry.route(&key(1), 0, &[10], 0), Some(false));
    assert_eq!(registry.route(&key(1), 1, &[11], 0), Some(false));
    assert_eq!(registry.route(&key(1), 3, &[13], 0), Some(true));
    assert_eq!(registry.route(&key(1), 4, &[14], 0), Some(false));
    assert_eq!(registry.pull(&key(1), 4), vec![10, 11, 13, 14]);
}

#[test]
fn losses_are_counted_per_sender() {
    let mut registry = Registry::new();
    registry.open(key(1), 0);
    registry.open(key(2), 0);
    assert_eq!(registry.route(&key(1), 0, &[1], 0), Some(false));
    assert_eq!(registry.route(&key(2), 0, &[2], 0), Some(false));
    assert_eq!(registry.route(&key(1), 1, &[1], 0), Some(false));
    assert_eq!(registry.route(&key(2), 1, &[2], 0), Some(false));
    assert_eq!(registry.route(&key(2), 5, &[2], 0), Some(true));
    assert_eq!(registry.route(&key(1), 2, &[1], 0), Some(false));
}

#[test]
fn sweep_removes_the_idle_and_spares_the_active() {
    let mut registry = Registry::new();
    registry.open(key(1), 0);
    registry.open(key(2), 0);
    registry.route(&key(2), 0, &[1], 4999);
    assert!(registry.sweep(4999, 5000).is_empty());
    assert_eq!(registry.len(), 2);
    assert_eq!(registry.sweep(5000, 5000), vec![key(1)]);
    assert_eq!(registry.len(), 1);
    assert!(!registry.contains_key(&key(1)));
    assert!(registry.contains_key(&key(2)));
    assert_eq!(registry.kill_notices(), &vec![0]);
    assert!(registry.sweep(9998, 5000).is_empty());
    assert_eq!(registry.sweep(9999, 5000), vec![key(2)]);
    assert_eq!(registry.len(), 0);
    assert_eq!(registry.kill_notices(), &vec![0, 1]);
}

#[test]
fn sweep_removes_all_idle_sessions_at_once() {
    let mut registry = Registry::new();
    for octet in 0..20u8 {
        registry.open(key(octet), octet as u64);
    }
    let mut removed = registry.sweep(5009, 5000);
    removed.sort_by_key(|k| k.emiter_ip.ip);
    let expected: Vec<StreamerKey> = (0..10u8).map(key).collect();
    assert_eq!(removed, expected);
    assert_eq!(registry.len(), 10);
    let mut notices = registry.kill_notices().clone();
    notices.sort();
    assert_eq!(notices, (0..10u32).collect::<Vec<u32>>());
}

#[test]
fn chunk_after_expiry_starts_a_new_session() {
    let mut registry = Registry::new();
    assert_eq!(registry.open(key(1), 0), Some(0));
    registry.route(&key(1), 0, &[1, 2], 0);
    assert_eq!(registry.sweep(6000, 5000), vec![key(1)]);
    assert_eq!(registry.route(&key(1), 1, &[3], 6000), None);
    assert_eq!(registry.open(key(1), 6000), Some(1));
    assert_eq!(registry.route(&key(1), 0, &[3], 6000), Some(false));
    let mut storage: Vec<IDStream<String>> = vec![handle(0, "old")];
    let closing = registry.drain_kill_notices(&mut storage);
    assert_eq!(ids(&closing), vec![0]);
    assert_eq!(registry.pull(&key(1), 2), vec![3, 0]);
}

#[test]
fn drain_removes_the_handles_of_removed_sessions() {
    let mut registry = Registry::new();
    let mut storage: Vec<IDStream<String>> = Vec::new();
    for octet in 0..4u8 {
        let id = registry.open(key(octet), 0).expect("a new session");
        storage.push(handle(id, "stream"));
    }
    registry.route(&key(1), 0, &[1], 3000);
    registry.route(&key(3), 0, &[1], 3000);
    let mut removed = registry.sweep(5000, 5000);
    removed.sort_by_key(|k| k.emiter_ip.ip);
    assert_eq!(removed, vec![key(0), key(2)]);
    assert_eq!(registry.kill_notices().len(), 2);
    assert_eq!(ids(&storage), vec![0, 1, 2, 3]);
    let closing = registry.drain_kill_notices(&mut storage);
    assert_eq!(ids(&closing), vec![0, 2]);
    assert_eq!(ids(&storage), vec![1, 3]);
    assert!(registry.kill_notices().is_empty());
    let closing = registry.drain_kill_notices(&mut storage);
    assert!(closing.is_empty());
    assert_eq!(ids(&storage), vec![1, 3]);
}

#[test]
fn notice_for_a_handle_already_gone_is_ignored() {
    let mut registry = Registry::new();
    let mut storage: Vec<IDStream<String>> = vec![handle(7, "other")];
    registry.open(key(1), 0);
    registry.sweep(5000, 5000);
    assert_eq!(registry.kill_notices(), &vec![0]);
    assert!(registry.drain_kill_notices(&mut storage).is_empty());
    assert_eq!(ids(&storage), vec![7]);
    assert!(registry.kill_notices().is_empty());
}

#[test]
fn garbage_collection_sweeps_then_drains() {
    let mut registry = Registry::new();
    let mut storage: Vec<IDStream<String>> = Vec::new();
    let first = registry.open(key(1), 0).expect("a new session");
    storage.push(handle(first, "first"));
    let second = registry.open(key(2), 1).expect("a new session");
    storage.push(handle(second, "second"));
    let (removed, closing) = registry.gc_streamerz(STREAMZ_TIMEOUT_MS - 1, &mut storage);
    assert!(removed.is_empty());
    assert!(closing.is_empty());
    assert_eq!(ids(&storage), vec![0, 1]);
    let (removed, closing) = registry.gc_streamerz(STREAMZ_TIMEOUT_MS, &mut storage);
    assert_eq!(removed, vec![key(1)]);
    assert_eq!(ids(&closing), vec![0]);
    assert_eq!(closing[0].handle, "first");
    assert_eq!(ids(&storage), vec![1]);
    assert_eq!(storage[0].handle, "second");
    assert!(registry.kill_notices().is_empty());
    assert_eq!(registry.len(), 1);
}

#[test]
fn timeout_is_five_seconds() {
    assert_eq!(STREAMZ_TIMEOUT_MS, 5000);
}

#[test]
fn datagram_for_an_unknown_key_comes_back_unopened() {
    let mut registry = Registry::new();
    let mut counter = SequenceCounter::new();
    let bytes = pack_data(&mut counter, &vec![1, -1, 2, -2], 48000, 2);
    match registry.receive(sender(1, 4000), &bytes, 0) {
        Reception::Unopened { key: unopened, frame } => {
            assert_eq!(unopened, key(1));
            assert_eq!(frame.samples, vec![1, -1, 2, -2]);
            assert_eq!(frame.sequence, 0);
            assert_eq!(frame.protocol_version, VERSION);
        }
        _ => panic!("the key has no session"),
    }
    assert_eq!(registry.len(), 0);
}

#[test]
fn datagram_for_a_known_key_is_routed() {
    let mut registry = Registry::new();
    let mut counter = SequenceCounter::new();
    registry.open(key(1), 0);
    let first = pack_data(&mut counter, &vec![1, -1], 48000, 2);
    let _skipped = pack_data(&mut counter, &vec![2, -2], 48000, 2);
    let third = pack_data(&mut counter, &vec![3, -3], 48000, 2);
    match registry.receive(sender(1, 4000), &first, 10) {
        Reception::Routed { key: routed, lost } => {
            assert_eq!(routed, key(1));
            assert!(!lost);
        }
        _ => panic!("the key has a session"),
    }
    match registry.receive(sender(1, 4000), &third, 20) {
        Reception::Routed { key: routed, lost } => {
            assert_eq!(routed, key(1));
            assert!(lost);
        }
        _ => panic!("the key has a session"),
    }
    assert_eq!(registry.pull(&key(1), 6), vec![1, -1, 3, -3, 0, 0]);
    assert!(registry.sweep(5019, 5000).is_empty());
    assert_eq!(registry.sweep(5020, 5000), vec![key(1)]);
}

#[test]
fn same_sender_in_another_format_is_another_stream() {
    let mut registry = Registry::new();
    let mut counter = SequenceCounter::new();
    registry.open(key(1), 0);
    let mono = pack_data(&mut counter, &vec![1, 2], 48000, 1);
    match registry.receive(sender(1, 4000), &mono, 0) {
        Reception::Unopened { key: unopened, .. } => {
            assert_eq!(unopened, StreamerKey::new(sender(1, 4000), 48000, 1));
        }
        _ => panic!("the format has no session"),
    }
    assert_eq!(registry.pull(&key(1), 2), vec![0, 0]);
}

#[test]
fn broken_datagram_changes_nothing() {
    let mut registry = Registry::new();
    registry.open(key(1), 0);
    assert!(matches!(registry.receive(sender(1, 4000), &[1, 2, 3], 100), Reception::Broken));
    assert!(matches!(registry.dispatch(sender(1, 4000), None, 100), Reception::Broken));
    assert_eq!(registry.len(), 1);
    assert_eq!(registry.sweep(5000, 5000), vec![key(1)]);
}

#[test]
fn dispatch_routes_by_sender_and_format() {
    let mut registry = Registry::new();
    registry.open(key(1), 0);
    let frame = AudioFrame {
        protocol_version: VERSION,
        sequence: 0,
        sample_rate: 48000,
        channel_count: 2,
        samples: vec![4, 5],
    };
    assert!(matches!(
        registry.dispatch(sender(1, 4000), Some(frame), 1),
        Reception::Routed { lost: false, .. }
    ));
    assert_eq!(registry.pull(&key(1), 2), vec![4, 5]);
}

#[test]
fn feed_and_process_queue_alike() {
    let mut fed = Streamer::new(0, 0);
    let mut processed = Streamer::new(0, 0);
    fed.feed(&[1, 2, 3], 4);
    processed.process(vec![1, 2, 3], 4);
    assert_eq!(fed.last_recv(), processed.last_recv());
    assert_eq!(fed.pull(4), processed.pull(4));
}

#[test]
fn expectation_follows_the_last_number_seen() {
    let mut streamer = Streamer::new(0, 0);
    assert_eq!(streamer.expected_sequence(), 0);
    streamer.observe(0);
    assert_eq!(streamer.expected_sequence(), 1);
    streamer.observe(9);
    assert_eq!(streamer.expected_sequence(), 10);
    streamer.observe(65535);
    assert_eq!(streamer.expected_sequence(), 0);
    assert_eq!(streamer.lost_chunks(), 2);
}

#[test]
fn session_without_consumer_drops_chunks_until_swept() {
    let mut registry = Registry::new();
    registry.open(key(1), 0);
    registry.open(key(2), 0);
    registry.route(&key(1), 0, &[1, 2], 0);
    assert!(registry.disconnect(&key(1)));
    assert!(!registry.disconnect(&key(3)));
    assert_eq!(registry.route(&key(1), 1, &[3, 4], 100), Some(false));
    assert_eq!(registry.route(&key(2), 0, &[5, 6], 100), Some(false));
    assert_eq!(registry.pull(&key(1), 4), vec![1, 2, 0, 0]);
    assert_eq!(registry.pull(&key(2), 4), vec![5, 6, 0, 0]);
    assert!(registry.sweep(4999, 5000).is_empty());
    assert_eq!(registry.sweep(5000, 5000), vec![key(1)]);
    assert!(registry.sweep(5099, 5000).is_empty());
    assert_eq!(registry.sweep(5100, 5000), vec![key(2)]);
}

#[test]
fn identifiers_are_handed_out_in_order() {
    let mut registry = Registry::new();
    for octet in 0..5u8 {
        assert_eq!(registry.open(key(octet), 0), Some(octet as u32));
    }
    registry.sweep(5000, 5000);
    assert_eq!(registry.open(key(0), 5000), Some(5));
}

#[test]
fn samples_pending_at_the_sweep_are_still_played() {
    let mut registry = Registry::new();
    registry.open(key(1), 0);
    registry.route(&key(1), 0, &[7], 0);
    assert_eq!(registry.sweep(5000, 5000), vec![key(1)]);
    assert!(!registry.contains_key(&key(1)));
    assert_eq!(registry.pull(&key(1), 3), vec![7, 0, 0]);
    assert_eq!(registry.pull(&key(1), 3), vec![0, 0, 0]);
}

#[test]
fn leftovers_are_played_before_the_new_session() {
    let mut registry = Registry::new();
    registry.open(key(1), 0);
    registry.route(&key(1), 0, &[1, 2, 3], 0);
    registry.sweep(5000, 5000);
    registry.open(key(1), 5000);
    registry.route(&key(1), 0, &[4, 5], 5000);
    assert_eq!(registry.pull(&key(1), 2), vec![1, 2]);
    assert_eq!(registry.pull(&key(1), 2), vec![3, 4]);
    assert_eq!(registry.pull(&key(1), 2), vec![5, 0]);
}

#[test]
fn leftovers_of_two_sweeps_are_played_in_order() {
    let mut registry = Registry::new();
    registry.open(key(1), 0);
    registry.route(&key(1), 0, &[1, 2], 0);
    registry.sweep(5000, 5000);
    registry.open(key(1), 5000);
    registry.route(&key(1), 0, &[3, 4], 5000);
    registry.sweep(10000, 5000);
    assert_eq!(registry.kill_notices(), &vec![0, 1]);
    assert_eq!(registry.pull(&key(1), 3), vec![1, 2, 3]);
    assert_eq!(registry.pull(&key(2), 2), vec![0, 0]);
    assert_eq!(registry.pull(&key(1), 3), vec![4, 0, 0]);
}

#[test]
fn leftovers_end_with_the_drain() {
    let mut registry = Registry::new();
    let mut storage: Vec<IDStream<String>> = Vec::new();
    registry.open(key(1), 0);
    registry.open(key(2), 4000);
    storage.push(handle(0, "first"));
    storage.push(handle(1, "second"));
    registry.route(&key(1), 0, &[7, 8], 0);
    registry.route(&key(2), 0, &[9], 4000);
    registry.sweep(5000, 5000);
    let closing = registry.drain_kill_notices(&mut storage);
    assert_eq!(ids(&closing), vec![0]);
    assert_eq!(ids(&storage), vec![1]);
    assert_eq!(registry.pull(&key(1), 2), vec![0, 0]);
    assert_eq!(registry.pull(&key(2), 2), vec![9, 0]);
}

#[test]
fn install_opens_routes_and_stores_the_handle() {
    let mut registry = Registry::new();
    let mut storage: Vec<IDStream<String>> = vec![];
    let created = registry.install(key(1), 0, &[1, 2], 10, "first".to_string(), &mut storage);
    assert_eq!(created, Some(0));
    assert_eq!(ids(&storage), vec![0]);
    assert_eq!(storage[0].handle, "first");
    let created = registry.install(key(2), 4, &[3, 4], 20, "second".to_string(), &mut storage);
    assert_eq!(created, Some(1));
    assert_eq!(ids(&storage), vec![0, 1]);
    assert_eq!(storage[1].handle, "second");
    assert_eq!(registry.len(), 2);
    assert_eq!(registry.pull(&key(1), 3), vec![1, 2, 0]);
    assert_eq!(registry.pull(&key(2), 3), vec![3, 4, 0]);
    assert_eq!(registry.route(&key(1), 1, &[5], 30), Some(false));
    assert_eq!(registry.route(&key(2), 1, &[6], 30), Some(true));
    assert!(registry.sweep(5029, 5000).is_empty());
}

#[test]
fn install_for_a_known_key_routes_and_stores_nothing() {
    let mut registry = Registry::new();
    let mut storage: Vec<IDStream<String>> = vec![];
    registry.install(key(1), 0, &[1], 0, "first".to_string(), &mut storage);
    let created = registry.install(key(1), 1, &[2], 1, "spare".to_string(), &mut storage);
    assert_eq!(created, None);
    assert_eq!(ids(&storage), vec![0]);
    assert_eq!(storage[0].handle, "first");
    assert_eq!(registry.len(), 1);
    assert_eq!(registry.pull(&key(1), 3), vec![1, 2, 0]);
}

#[test]
fn key_that_returns_gets_another_identifier() {
    let mut registry = Registry::new();
    let mut storage: Vec<IDStream<String>> = vec![];
    registry.install(key(1), 0, &[1], 0, "first".to_string(), &mut storage);
    registry.install(key(2), 0, &[2], 4000, "second".to_string(), &mut storage);
    let (removed, closing) = registry.gc_streamerz(5000, &mut storage);
    assert_eq!(removed, vec![key(1)]);
    assert_eq!(ids(&closing), vec![0]);
    assert_eq!(ids(&storage), vec![1]);
    let created = registry.install(key(1), 0, &[3], 5000, "third".to_string(), &mut storage);
    assert_eq!(created, Some(2));
    assert_eq!(ids(&storage), vec![1, 2]);
    assert_eq!(registry.pull(&key(1), 2), vec![3, 0]);
    let (removed, closing) = registry.gc_streamerz(9000, &mut storage);
    assert_eq!(removed, vec![key(2)]);
    assert_eq!(ids(&closing), vec![1]);
    assert_eq!(closing[0].handle, "second");
    assert_eq!(ids(&storage), vec![2]);
    assert_eq!(storage[0].handle, "third");
}

#[test]
fn survivor_of_a_sweep_keeps_everything() {
    let mut registry = Registry::new();
    let mut storage: Vec<IDStream<String>> = vec![];
    registry.install(key(1), 0, &[1, 2], 0, "idle".to_string(), &mut storage);
    registry.install(key(2), 0, &[3, 4], 1, "fed".to_string(), &mut storage);
    let (removed, closing) = registry.gc_streamerz(5000, &mut storage);
    assert_eq!(removed, vec![key(1)]);
    assert_eq!(ids(&closing), vec![0]);
    assert!(registry.contains_key(&key(2)));
    assert!(registry.kill_notices().is_empty());
    assert_eq!(ids(&storage), vec![1]);
    assert_eq!(storage[0].handle, "fed");
    assert_eq!(registry.route(&key(2), 1, &[5], 5000), Some(false));
    assert_eq!(registry.pull(&key(2), 4), vec![3, 4, 5, 0]);
}
