//! The registry of sessions: one session per key, created on first sight of the
//! key, fed by routing, and removed once idle for too long.

use crate::message_packing::{
    decoded_frame, frame_model, unpack_data, wire_decoding, AudioFrame, AudioNum, FrameModel,
};
use crate::session_map::{
    sessions_contains_key, sessions_insert, sessions_len, sessions_new, sessions_remove,
    sessions_snapshot, stored_sessions, KeyIndex,
};
use crate::streamer::{
    elapsed_since, idle_at, silence_padded, SenderAddr, Streamer, StreamerKey, StreamerModel,
};
use crate::numbering::{
    lemma_disconnected_well_numbered, lemma_drained_well_numbered, lemma_opened_well_numbered,
    lemma_pulled_well_numbered, lemma_routed_well_numbered, lemma_surviving_stay_numbered,
    lemma_swept_well_numbered,
};
use dashmap::DashMap;
use vstd::prelude::*;

verus! {

/// Time, in milliseconds, after which a session without chunks is removed.
pub const STREAMZ_TIMEOUT_MS: u64 = 5000;

/// The tuple under which a key is filed. Distinct keys have distinct tuples.
pub open spec fn index_of(key: StreamerKey) -> KeyIndex {
    (
        key.emiter_ip.is_v6,
        key.emiter_ip.ip,
        key.emiter_ip.port,
        key.emiter_ip.flowinfo,
        key.emiter_ip.scope_id,
        key.sample_rate,
        key.n_audio_channels,
    )
}

/// The key that is filed under a tuple.
pub open spec fn key_at(index: KeyIndex) -> StreamerKey {
    StreamerKey {
        emiter_ip: SenderAddr {
            is_v6: index.0,
            ip: index.1,
            port: index.2,
            flowinfo: index.3,
            scope_id: index.4,
        },
        sample_rate: index.5,
        n_audio_channels: index.6,
    }
}

/// The successor of a stream identifier, wrapping past the largest.
pub open spec fn stream_id_after(stream_id: u32) -> u32 {
    if stream_id == u32::MAX {
        0
    } else {
        (stream_id + 1) as u32
    }
}

/// Mathematical form of a [`Registry`].
pub ghost struct RegistryModel {
    /// The live sessions, by key.
    pub sessions: Map<StreamerKey, StreamerModel>,
    /// Identifier that the next session will get.
    pub next_stream_id: u32,
    /// Identifiers of removed sessions whose playback handles are still stored.
    pub kill_notices: Seq<u32>,
    /// Samples that removed sessions left unplayed, by key. Their consumers
    /// still get them, until the kill notices are drained.
    pub leftovers: Map<StreamerKey, Seq<AudioNum>>,
}

impl RegistryModel {
    /// A registry without sessions, whose first session gets identifier 0.
    pub open spec fn empty() -> RegistryModel {
        RegistryModel {
            sessions: Map::empty(),
            next_stream_id: 0,
            kill_notices: Seq::empty(),
            leftovers: Map::empty(),
        }
    }

    /// The registry after a session was asked for under `key` at `now`: a fresh
    /// one is created unless the key has one already.
    pub open spec fn opened(self, key: StreamerKey, now: u64) -> RegistryModel {
        if self.sessions.contains_key(key) {
            self
        } else {
            RegistryModel {
                sessions: self.sessions.insert(key, StreamerModel::fresh(self.next_stream_id, now)),
                next_stream_id: stream_id_after(self.next_stream_id),
                ..self
            }
        }
    }

    /// The registry after a chunk was routed to `key` at `now`: the key's
    /// session checks the sequence number and takes the samples; a chunk for a
    /// key without a session changes nothing.
    pub open spec fn routed(
        self,
        key: StreamerKey,
        sequence: u16,
        samples: Seq<AudioNum>,
        now: u64,
    ) -> RegistryModel {
        if self.sessions.contains_key(key) {
            RegistryModel {
                sessions: self.sessions.insert(
                    key,
                    self.sessions[key].observed(sequence).pushed(samples, now),
                ),
                ..self
            }
        } else {
            self
        }
    }

    /// The registry after a chunk arrived for `key` and the playback handle for
    /// the key could be made: the session is opened if need be, then fed.
    pub open spec fn installed(
        self,
        key: StreamerKey,
        sequence: u16,
        samples: Seq<AudioNum>,
        now: u64,
    ) -> RegistryModel {
        self.opened(key, now).routed(key, sequence, samples, now)
    }

    /// Whether the identifiers are in order: every live session and every kill
    /// notice bears an identifier that the counter has passed, and no two of
    /// them bear the same. It holds of an empty registry and stays for as long
    /// as the counter has not wrapped.
    pub open spec fn well_numbered(self) -> bool {
        &&& forall|key: StreamerKey| #[trigger]
            self.sessions.contains_key(key) ==> self.sessions[key].stream_id
                < self.next_stream_id
        &&& forall|a: StreamerKey, b: StreamerKey|
            #[trigger] self.sessions.contains_key(a) && #[trigger] self.sessions.contains_key(b)
                && a != b ==> self.sessions[a].stream_id != self.sessions[b].stream_id
        &&& forall|i: int|
            0 <= i < self.kill_notices.len() ==> #[trigger] self.kill_notices[i]
                < self.next_stream_id
        &&& forall|key: StreamerKey, i: int|
            #[trigger] self.sessions.contains_key(key) && 0 <= i < self.kill_notices.len()
                ==> #[trigger] self.kill_notices[i] != self.sessions[key].stream_id
        &&& self.kill_notices.no_duplicates()
    }

    /// Whether every stored handle bears an identifier that the counter has passed.
    pub open spec fn numbers<H>(self, storage: Seq<IDStream<H>>) -> bool {
        forall|i: int| 0 <= i < storage.len() ==> (#[trigger] storage[i]).id < self.next_stream_id
    }

    /// The samples pending in the live session of `key`; none where it has none.
    pub open spec fn pending(self, key: StreamerKey) -> Seq<AudioNum> {
        if self.sessions.contains_key(key) {
            self.sessions[key].pending
        } else {
            Seq::empty()
        }
    }

    /// The samples that removed sessions of `key` left unplayed.
    pub open spec fn leftover(self, key: StreamerKey) -> Seq<AudioNum> {
        if self.leftovers.contains_key(key) {
            self.leftovers[key]
        } else {
            Seq::empty()
        }
    }

    /// All that the consumer of `key` has yet to hear: what removed sessions
    /// left behind, then what the live session holds.
    pub open spec fn audible(self, key: StreamerKey) -> Seq<AudioNum> {
        self.leftover(key) + self.pending(key)
    }

    /// What a consumer gets when it pulls `count` scalars for `key`: the
    /// oldest samples still audible, then silence.
    pub open spec fn pulled_frame(self, key: StreamerKey, count: nat) -> Seq<AudioNum> {
        silence_padded(self.audible(key), count)
    }

    /// How many of `count` pulled scalars come out of the leftovers of `key`.
    pub open spec fn pulled_from_leftover(self, key: StreamerKey, count: nat) -> nat {
        if count < self.leftover(key).len() {
            count
        } else {
            self.leftover(key).len()
        }
    }

    /// The registry after the consumer of `key` ended.
    pub open spec fn disconnected(self, key: StreamerKey) -> RegistryModel {
        if self.sessions.contains_key(key) {
            RegistryModel {
                sessions: self.sessions.insert(key, self.sessions[key].disconnected()),
                ..self
            }
        } else {
            self
        }
    }

    /// The registry after a consumer pulled `count` scalars for `key`: the
    /// leftovers go first, the live session's samples after them.
    pub open spec fn pulled(self, key: StreamerKey, count: nat) -> RegistryModel {
        let from_leftover = self.pulled_from_leftover(key, count);
        RegistryModel {
            leftovers: if self.leftovers.contains_key(key) {
                self.leftovers.insert(key, self.leftovers[key].skip(from_leftover as int))
            } else {
                self.leftovers
            },
            sessions: if self.sessions.contains_key(key) {
                self.sessions.insert(
                    key,
                    self.sessions[key].pulled((count - from_leftover) as nat),
                )
            } else {
                self.sessions
            },
            ..self
        }
    }
}

/// The concurrent map of live sessions, with the identifier counter, the kill
/// notices that wait to be drained, and the removed sessions they stand for.
pub struct Registry {
    sessions: DashMap<KeyIndex, Streamer>,
    retired: DashMap<KeyIndex, Streamer>,
    next_stream_id: u32,
    kill_notices: Vec<u32>,
}

/// The sessions of a map, by key.
pub open spec fn sessions_by_key(stored: Map<KeyIndex, StreamerModel>) -> Map<
    StreamerKey,
    StreamerModel,
> {
    Map::new(
        |key: StreamerKey| stored.contains_key(index_of(key)),
        |key: StreamerKey| stored[index_of(key)],
    )
}

/// What the sessions of a map hold pending, by key.
pub open spec fn pending_by_key(stored: Map<KeyIndex, StreamerModel>) -> Map<
    StreamerKey,
    Seq<AudioNum>,
> {
    Map::new(
        |key: StreamerKey| stored.contains_key(index_of(key)),
        |key: StreamerKey| stored[index_of(key)].pending,
    )
}

/// Filing and looking up are inverse to each other.
pub proof fn lemma_index_round_trip(key: StreamerKey, index: KeyIndex)
    ensures
        key_at(index_of(key)) == key,
        index_of(key_at(index)) == index,
{
}

/// Distinct keys are filed under distinct tuples.
proof fn lemma_index_injective()
    ensures
        forall|a: StreamerKey, b: StreamerKey| #[trigger] index_of(a) == #[trigger] index_of(b) ==> a == b,
{
    assert forall|a: StreamerKey, b: StreamerKey| #[trigger]
        index_of(a) == #[trigger] index_of(b) implies a == b by {
        lemma_index_round_trip(a, index_of(a));
        lemma_index_round_trip(b, index_of(b));
    }
}

proof fn lemma_insert_by_key(stored: Map<KeyIndex, StreamerModel>, key: StreamerKey, session: StreamerModel)
    ensures
        sessions_by_key(stored.insert(index_of(key), session)) == sessions_by_key(stored).insert(
            key,
            session,
        ),
{
    assert forall|other: StreamerKey| index_of(other) == index_of(key) implies other == key by {
        lemma_index_round_trip(other, index_of(other));
        lemma_index_round_trip(key, index_of(key));
    }
    assert(sessions_by_key(stored.insert(index_of(key), session)) =~= sessions_by_key(
        stored,
    ).insert(key, session));
}

proof fn lemma_remove_by_key(stored: Map<KeyIndex, StreamerModel>, key: StreamerKey)
    ensures
        sessions_by_key(stored.remove(index_of(key))) == sessions_by_key(stored).remove(key),
{
    assert forall|other: StreamerKey| index_of(other) == index_of(key) implies other == key by {
        lemma_index_round_trip(other, index_of(other));
        lemma_index_round_trip(key, index_of(key));
    }
    assert(sessions_by_key(stored.remove(index_of(key))) =~= sessions_by_key(stored).remove(key));
}

impl StreamerKey {
    /// The key of the stream that `emiter_ip` sends in the given format.
    pub fn new(emiter_ip: SenderAddr, sample_rate: u32, n_audio_channels: u16) -> (key:
        StreamerKey)
        ensures
            key == (StreamerKey { emiter_ip, sample_rate, n_audio_channels }),
    {
        StreamerKey { emiter_ip, sample_rate, n_audio_channels }
    }

    /// The tuple under which the key is filed.
    pub fn index(&self) -> (index: KeyIndex)
        ensures
            index == index_of(*self),
    {
        (
            self.emiter_ip.is_v6,
            self.emiter_ip.ip,
            self.emiter_ip.port,
            self.emiter_ip.flowinfo,
            self.emiter_ip.scope_id,
            self.sample_rate,
            self.n_audio_channels,
        )
    }

    /// The key that is filed under a tuple.
    pub fn at(index: KeyIndex) -> (key: StreamerKey)
        ensures
            key == key_at(index),
    {
        StreamerKey {
            emiter_ip: SenderAddr {
                is_v6: index.0,
                ip: index.1,
                port: index.2,
                flowinfo: index.3,
                scope_id: index.4,
            },
            sample_rate: index.5,
            n_audio_channels: index.6,
        }
    }
}

/// A frame of silence.
fn silence(frame_size: usize) -> (frame: Vec<AudioNum>)
    ensures
        frame@ == silence_padded(Seq::empty(), frame_size as nat),
{
    let mut frame: Vec<AudioNum> = Vec::with_capacity(frame_size);
    let mut i: usize = 0;
    while i < frame_size
        invariant
            i <= frame_size,
            frame@ == silence_padded(Seq::empty(), i as nat),
        decreases frame_size - i,
    {
        frame.push(0);
        i += 1;
        assert(frame@ =~= silence_padded(Seq::empty(), i as nat));
    }
    frame
}

impl View for Registry {
    type V = RegistryModel;

    closed spec fn view(&self) -> RegistryModel {
        RegistryModel {
            sessions: sessions_by_key(stored_sessions(self.sessions)),
            next_stream_id: self.next_stream_id,
            kill_notices: self.kill_notices@,
            leftovers: pending_by_key(stored_sessions(self.retired)),
        }
    }
}

impl Registry {
    /// A registry without sessions.
    pub fn new() -> (registry: Registry)
        ensures
            registry@ == RegistryModel::empty(),
            registry@.well_numbered(),
    {
        let registry = Registry {
            sessions: sessions_new(),
            retired: sessions_new(),
            next_stream_id: 0,
            kill_notices: Vec::new(),
        };
        assert(registry@.sessions =~= Map::empty());
        assert(registry@.leftovers =~= Map::empty());
        registry
    }

    /// Whether `key` has a live session.
    pub fn contains_key(&self, key: &StreamerKey) -> (found: bool)
        ensures
            found == self@.sessions.contains_key(*key),
    {
        let index: KeyIndex = key.index();
        sessions_contains_key(&self.sessions, &index)
    }

    /// Creates the session for `key` unless there is one, and gives the new
    /// session's identifier. Call it once the playback handle for the key exists:
    /// a key whose handle could not be made is simply never opened.
    pub fn open(&mut self, key: StreamerKey, now: u64) -> (created: Option<u32>)
        ensures
            final(self)@ == old(self)@.opened(key, now),
            created == if old(self)@.sessions.contains_key(key) {
                None
            } else {
                Some(old(self)@.next_stream_id)
            },
            old(self)@.well_numbered() && (old(self)@.sessions.contains_key(key)
                || old(self)@.next_stream_id < u32::MAX) ==> final(self)@.well_numbered(),
    {
        proof {
            if self@.well_numbered() && (self@.sessions.contains_key(key) || self@.next_stream_id
                < u32::MAX) {
                lemma_opened_well_numbered(self@, key, now);
            }
        }
        let index: KeyIndex = key.index();
        if sessions_contains_key(&self.sessions, &index) {
            None
        } else {
            let stream_id: u32 = self.next_stream_id;
            self.next_stream_id = if stream_id == u32::MAX {
                0
            } else {
                stream_id + 1
            };
            proof {
                lemma_insert_by_key(
                    stored_sessions(self.sessions),
                    key,
                    StreamerModel::fresh(stream_id, now),
                );
            }
            let _ = sessions_insert(&mut self.sessions, index, Streamer::new(stream_id, now));
            Some(stream_id)
        }
    }

    /// Routes one chunk to the session of `key`: the session checks the
    /// sequence number, takes the samples and restarts its idle clock. Says
    /// whether the chunk was delivered, and if so whether a loss was detected.
    /// Without a session for `key` the chunk is dropped.
    pub fn route(&mut self, key: &StreamerKey, sequence: u16, samples: &[AudioNum], now: u64) -> (lost:
        Option<bool>)
        ensures
            final(self)@ == old(self)@.routed(*key, sequence, samples@, now),
            lost == if old(self)@.sessions.contains_key(*key) {
                Some(sequence != old(self)@.sessions[*key].expected_sequence)
            } else {
                None
            },
            old(self)@.well_numbered() ==> final(self)@.well_numbered(),
    {
        proof {
            if self@.well_numbered() {
                lemma_routed_well_numbered(self@, *key, sequence, samples@, now);
            }
        }
        let index: KeyIndex = key.index();
        proof {
            lemma_remove_by_key(stored_sessions(self.sessions), *key);
        }
        match sessions_remove(&mut self.sessions, &index) {
            Some((index, mut streamer)) => {
                let lost: bool = streamer.observe(sequence);
                streamer.feed(samples, now);
                proof {
                    lemma_insert_by_key(stored_sessions(self.sessions), *key, streamer@);
                }
                let _ = sessions_insert(&mut self.sessions, index, streamer);
                assert(final(self)@.sessions =~= old(self)@.routed(
                    *key,
                    sequence,
                    samples@,
                    now,
                ).sessions);
                Some(lost)
            },
            None => {
                assert(final(self)@.sessions =~= old(self)@.sessions);
                None
            },
        }
    }

    /// Hands the consumer of `key` exactly `frame_size` scalars: first what
    /// removed sessions of the key left unplayed, then the live session's
    /// oldest samples, then silence.
    pub fn pull(&mut self, key: &StreamerKey, frame_size: usize) -> (frame: Vec<AudioNum>)
        ensures
            frame@.len() == frame_size,
            frame@ == old(self)@.pulled_frame(*key, frame_size as nat),
            final(self)@ == old(self)@.pulled(*key, frame_size as nat),
            old(self)@.well_numbered() ==> final(self)@.well_numbered(),
    {
        proof {
            if self@.well_numbered() {
                lemma_pulled_well_numbered(self@, *key, frame_size as nat);
            }
        }
        let index: KeyIndex = key.index();
        let ghost before = self@;
        let ghost left = stored_sessions(self.retired);
        let ghost live = stored_sessions(self.sessions);
        proof {
            lemma_index_injective();
        }
        let mut frame: Vec<AudioNum> = match sessions_remove(&mut self.retired, &index) {
            Some((index, mut leftover)) => {
                let held: usize = leftover.pending_len();
                let part = leftover.pull(
                    if held < frame_size {
                        held
                    } else {
                        frame_size
                    },
                );
                let _ = sessions_insert(&mut self.retired, index, leftover);
                part
            },
            None => Vec::new(),
        };
        let ghost from_leftover = frame@;
        let mut rest: Vec<AudioNum> = match sessions_remove(&mut self.sessions, &index) {
            Some((index, mut streamer)) => {
                let rest = streamer.pull(frame_size - frame.len());
                let _ = sessions_insert(&mut self.sessions, index, streamer);
                rest
            },
            None => silence(frame_size - frame.len()),
        };
        frame.append(&mut rest);
        proof {
            let taken = before.pulled_from_leftover(*key, frame_size as nat);
            assert(from_leftover =~= before.leftover(*key).take(taken as int));
            assert(frame@ =~= before.pulled_frame(*key, frame_size as nat));
            assert(final(self)@.sessions =~= before.pulled(*key, frame_size as nat).sessions);
            if left.contains_key(index) {
                assert(stored_sessions(self.retired)[index].pending =~= before.leftovers[*key].skip(
                    taken as int,
                ));
            }
            assert(final(self)@.leftovers =~= before.pulled(*key, frame_size as nat).leftovers);
        }
        frame
    }

    /// Records that the consumer of `key` has ended: chunks that arrive for the
    /// session from now on are dropped and no longer restart its idle clock, so
    /// that the sweep removes it in time. Says whether the key has a session.
    pub fn disconnect(&mut self, key: &StreamerKey) -> (found: bool)
        ensures
            found == old(self)@.sessions.contains_key(*key),
            final(self)@ == old(self)@.disconnected(*key),
            old(self)@.well_numbered() ==> final(self)@.well_numbered(),
    {
        proof {
            if self@.well_numbered() {
                lemma_disconnected_well_numbered(self@, *key);
            }
        }
        let index: KeyIndex = key.index();
        proof {
            lemma_remove_by_key(stored_sessions(self.sessions), *key);
        }
        match sessions_remove(&mut self.sessions, &index) {
            Some((index, mut streamer)) => {
                streamer.disconnect();
                proof {
                    lemma_insert_by_key(stored_sessions(self.sessions), *key, streamer@);
                }
                let _ = sessions_insert(&mut self.sessions, index, streamer);
                assert(final(self)@.sessions =~= old(self)@.disconnected(*key).sessions);
                true
            },
            None => {
                assert(final(self)@.sessions =~= old(self)@.sessions);
                false
            },
        }
    }

    /// The number of live sessions.
    pub fn len(&self) -> (count: usize)
        ensures
            self@.sessions.dom().finite(),
            count == self@.sessions.dom().len(),
    {
        let count: usize = sessions_len(&self.sessions);
        proof {
            lemma_by_key_len(stored_sessions(self.sessions));
        }
        count
    }
}

/// Re-keying a finite map keeps it finite and of the same size.
proof fn lemma_by_key_len(stored: Map<KeyIndex, StreamerModel>)
    requires
        stored.dom().finite(),
    ensures
        sessions_by_key(stored).dom().finite(),
        sessions_by_key(stored).dom().len() == stored.dom().len(),
{
    let keys = stored.dom().map(|index: KeyIndex| key_at(index));
    assert forall|a: KeyIndex, b: KeyIndex| key_at(a) == key_at(b) implies a == b by {
        lemma_index_round_trip(key_at(a), a);
        lemma_index_round_trip(key_at(b), b);
    }
    vstd::set_lib::lemma_map_size(stored.dom(), keys, |index: KeyIndex| key_at(index));
    assert forall|key: StreamerKey| keys.contains(key) <==> sessions_by_key(stored).dom().contains(key) by {
        lemma_index_round_trip(key, index_of(key));
        if sessions_by_key(stored).dom().contains(key) {
            assert(stored.dom().contains(index_of(key)));
            assert(key_at(index_of(key)) == key);
        }
        if keys.contains(key) {
            let index = choose|index: KeyIndex| stored.dom().contains(index) && key_at(index) == key;
            lemma_index_round_trip(key, index);
        }
    }
    assert(keys =~= sessions_by_key(stored).dom());
}

impl RegistryModel {
    /// The keys whose sessions have gone without a chunk for `idle_timeout` or longer.
    pub open spec fn expired(self, now: u64, idle_timeout: u64) -> Set<StreamerKey> {
        Set::new(
            |key: StreamerKey|
                self.sessions.contains_key(key) && self.sessions[key].is_idle(now, idle_timeout),
        )
    }

    /// Whether `removed` names every expired key, each once, and no other.
    pub open spec fn lists_expired(self, now: u64, idle_timeout: u64, removed: Seq<StreamerKey>) -> bool {
        &&& removed.no_duplicates()
        &&& forall|key: StreamerKey|
            #![trigger removed.contains(key)]
            #![trigger self.expired(now, idle_timeout).contains(key)]
            removed.contains(key) <==> self.expired(now, idle_timeout).contains(key)
    }

    /// The kill notices that the removal of the sessions under `removed` emits:
    /// one for each, carrying the session's identifier.
    pub open spec fn notices_for(self, removed: Seq<StreamerKey>) -> Seq<u32> {
        Seq::new(removed.len(), |i: int| self.sessions[removed[i]].stream_id)
    }

    /// The registry after a sweep that removed the expired sessions in the
    /// order of `removed`: each emits its kill notice, and what it held
    /// pending joins the leftovers of its key.
    pub open spec fn swept(self, now: u64, idle_timeout: u64, removed: Seq<StreamerKey>) -> RegistryModel {
        RegistryModel {
            sessions: self.sessions.remove_keys(self.expired(now, idle_timeout)),
            kill_notices: self.kill_notices + self.notices_for(removed),
            leftovers: Map::new(
                |key: StreamerKey|
                    self.leftovers.contains_key(key) || self.expired(now, idle_timeout).contains(
                        key,
                    ),
                |key: StreamerKey|
                    if self.expired(now, idle_timeout).contains(key) {
                        self.leftover(key) + self.sessions[key].pending
                    } else {
                        self.leftovers[key]
                    },
            ),
            ..self
        }
    }

    /// The registry after its kill notices were consumed: with the playback
    /// handles go the leftovers that they were still to play.
    pub open spec fn drained(self) -> RegistryModel {
        RegistryModel { kill_notices: Seq::empty(), leftovers: Map::empty(), ..self }
    }
}

/// A playback handle, stored under the identifier of the session it plays for.
pub struct IDStream<H> {
    pub id: u32,
    pub handle: H,
}

/// The stored handles that a kill notice names, in their order.
pub open spec fn released<H>(storage: Seq<IDStream<H>>, notices: Seq<u32>) -> Seq<IDStream<H>> {
    storage.filter(|entry: IDStream<H>| notices.contains(entry.id))
}

/// The stored handles that no kill notice names, in their order.
pub open spec fn surviving<H>(storage: Seq<IDStream<H>>, notices: Seq<u32>) -> Seq<IDStream<H>> {
    storage.filter(|entry: IDStream<H>| !notices.contains(entry.id))
}

/// Whether a notice names `stream_id`.
fn is_listed(notices: &Vec<u32>, stream_id: u32) -> (listed: bool)
    ensures
        listed == notices@.contains(stream_id),
{
    let mut i: usize = 0;
    while i < notices.len()
        invariant
            i <= notices.len(),
            forall|j: int| 0 <= j < i ==> notices@[j] != stream_id,
        decreases notices.len() - i,
    {
        if notices[i] == stream_id {
            return true;
        }
        i += 1;
    }
    false
}

/// Keeps what a removed session left unplayed, behind what earlier sessions of
/// its key left.
fn retire(retired: &mut DashMap<KeyIndex, Streamer>, index: KeyIndex, streamer: Streamer)
    ensures
        forall|other: KeyIndex| #[trigger]
            stored_sessions(*final(retired)).contains_key(other) <==> other == index
                || stored_sessions(*old(retired)).contains_key(other),
        forall|other: KeyIndex|
            other != index && stored_sessions(*old(retired)).contains_key(other)
                ==> #[trigger] stored_sessions(*final(retired))[other] == stored_sessions(
                *old(retired),
            )[other],
        stored_sessions(*final(retired))[index].pending == (if stored_sessions(
            *old(retired),
        ).contains_key(index) {
            stored_sessions(*old(retired))[index].pending
        } else {
            Seq::empty()
        }) + streamer@.pending,
{
    let mut streamer = streamer;
    let ghost unplayed = streamer@.pending;
    match sessions_remove(retired, &index) {
        Some((index, mut earlier)) => {
            let held: usize = streamer.pending_len();
            let rest = streamer.pull(held);
            assert(rest@ =~= unplayed);
            earlier.append(rest.as_slice());
            let _ = sessions_insert(retired, index, earlier);
        },
        None => {
            assert(Seq::<AudioNum>::empty() + streamer@.pending =~= streamer@.pending);
            let _ = sessions_insert(retired, index, streamer);
        },
    }
}

/// What is kept for `index` once the first `upto` entries are swept: what was
/// kept before, then what its session held if that session was idle.
spec fn kept_after(
    kept: Map<KeyIndex, StreamerModel>,
    stored: Map<KeyIndex, StreamerModel>,
    entries: Seq<(KeyIndex, u32, u64)>,
    upto: int,
    index: KeyIndex,
    now: u64,
    idle_timeout: u64,
) -> Seq<AudioNum> {
    (if kept.contains_key(index) {
        kept[index].pending
    } else {
        Seq::empty()
    }) + (if idle_among(entries, upto, index, now, idle_timeout) {
        stored[index].pending
    } else {
        Seq::empty()
    })
}

/// Whether one of the first `upto` entries files `index` and is idle.
spec fn idle_among(
    entries: Seq<(KeyIndex, u32, u64)>,
    upto: int,
    index: KeyIndex,
    now: u64,
    idle_timeout: u64,
) -> bool {
    exists|a: int|
        0 <= a < upto && (#[trigger] entries[a]).0 == index && elapsed_since(entries[a].2, now)
            >= idle_timeout
}

impl Registry {
    /// Removes every session that has been idle for `idle_timeout` or longer at
    /// `now`, and emits one kill notice for each, carrying its identifier.
    /// Gives the keys of the removed sessions, in the order of their notices.
    #[verifier::loop_isolation(false)]
    pub fn sweep(&mut self, now: u64, idle_timeout: u64) -> (removed: Vec<StreamerKey>)
        ensures
            old(self)@.lists_expired(now, idle_timeout, removed@),
            final(self)@ == old(self)@.swept(now, idle_timeout, removed@),
            old(self)@.well_numbered() ==> final(self)@.well_numbered(),
    {
        let entries = sessions_snapshot(&self.sessions);
        let ghost stored = stored_sessions(self.sessions);
        let ghost kept = stored_sessions(self.retired);
        let ghost before = self@;
        let ghost mut notices: Seq<u32> = Seq::empty();
        assert forall|index: KeyIndex| #[trigger]
            kept.contains_key(index) implies kept[index].pending == kept_after(
            kept,
            stored,
            entries@,
            0,
            index,
            now,
            idle_timeout,
        ) by {
            assert(kept[index].pending + Seq::<AudioNum>::empty() =~= kept[index].pending);
        }
        let mut removed: Vec<StreamerKey> = Vec::new();
        let mut i: usize = 0;
        while i < entries.len()
            invariant
                i <= entries.len(),
                self.next_stream_id == old(self).next_stream_id,
                self.kill_notices@ == old(self).kill_notices@ + notices,
                notices.len() == removed@.len(),
                forall|j: int|
                    0 <= j < removed@.len() ==> notices[j] == stored[index_of(
                        #[trigger] removed@[j],
                    )].stream_id,
                removed@.no_duplicates(),
                forall|key: StreamerKey| #[trigger]
                    removed@.contains(key) <==> idle_among(
                        entries@,
                        i as int,
                        index_of(key),
                        now,
                        idle_timeout,
                    ),
                forall|index: KeyIndex| #[trigger]
                    stored_sessions(self.sessions).contains_key(index) <==> stored.contains_key(
                        index,
                    ) && !idle_among(entries@, i as int, index, now, idle_timeout),
                forall|index: KeyIndex| #[trigger]
                    stored_sessions(self.sessions).contains_key(index) ==> stored_sessions(
                        self.sessions,
                    )[index] == stored[index],
                forall|index: KeyIndex| #[trigger]
                    stored_sessions(self.retired).contains_key(index) <==> kept.contains_key(index)
                        || idle_among(entries@, i as int, index, now, idle_timeout),
                forall|index: KeyIndex| #[trigger]
                    stored_sessions(self.retired).contains_key(index) ==> stored_sessions(
                        self.retired,
                    )[index].pending == kept_after(
                        kept,
                        stored,
                        entries@,
                        i as int,
                        index,
                        now,
                        idle_timeout,
                    ),
            decreases entries.len() - i,
        {
            let (index, stream_id, last_recv) = entries[i];
            let ghost held = stored_sessions(self.sessions);
            let ghost shelved = stored_sessions(self.retired);
            let ghost listed = removed@;
            if idle_at(last_recv, now, idle_timeout) {
                let key = StreamerKey::at(index);
                proof {
                    lemma_index_round_trip(key, index);
                    if listed.contains(key) {
                        let a = choose|a: int|
                            0 <= a < i && (#[trigger] entries@[a]).0 == index && elapsed_since(
                                entries@[a].2,
                                now,
                            ) >= idle_timeout;
                        assert(entries@[a].0 != entries@[i as int].0);
                    }
                }
                assert(!idle_among(entries@, i as int, index, now, idle_timeout)) by {
                    if idle_among(entries@, i as int, index, now, idle_timeout) {
                        let a = choose|a: int|
                            0 <= a < i && (#[trigger] entries@[a]).0 == index && elapsed_since(
                                entries@[a].2,
                                now,
                            ) >= idle_timeout;
                        assert(entries@[a].0 != entries@[i as int].0);
                    }
                }
                if let Some((index, streamer)) = sessions_remove(&mut self.sessions, &index) {
                    retire(&mut self.retired, index, streamer);
                }
                self.kill_notices.push(stream_id);
                removed.push(key);
                proof {
                    notices = notices.push(stream_id);
                    assert(removed@ == listed.push(key));
                    assert(idle_among(entries@, i + 1, index, now, idle_timeout)) by {
                        assert(entries@[i as int].0 == index);
                    }
                    assert forall|other: StreamerKey| #[trigger]
                        removed@.contains(other) <==> idle_among(
                            entries@,
                            i + 1,
                            index_of(other),
                            now,
                            idle_timeout,
                        ) by {
                        lemma_idle_among_step(entries@, i as int, index_of(other), now, idle_timeout);
                        lemma_index_round_trip(other, index_of(other));
                        if removed@.contains(other) {
                            let j = choose|j: int| 0 <= j < removed@.len() && removed@[j] == other;
                            if j < listed.len() {
                                assert(listed[j] == other);
                                assert(listed.contains(other));
                            }
                        } else {
                            if other == key {
                                assert(removed@[listed.len() as int] == key);
                            }
                            if listed.contains(other) {
                                let j = choose|j: int| 0 <= j < listed.len() && listed[j] == other;
                                assert(removed@[j] == other);
                            }
                        }
                    }
                    assert forall|other: KeyIndex| #[trigger]
                        stored_sessions(self.sessions).contains_key(other) <==> stored.contains_key(
                            other,
                        ) && !idle_among(entries@, i + 1, other, now, idle_timeout) by {
                        lemma_idle_among_step(entries@, i as int, other, now, idle_timeout);
                        assert(held.contains_key(other) <==> stored.contains_key(other)
                            && !idle_among(entries@, i as int, other, now, idle_timeout));
                    }
                    assert forall|j: int| 0 <= j < removed@.len() implies notices[j] == stored[index_of(
                        #[trigger] removed@[j],
                    )].stream_id by {
                        if j < listed.len() {
                            assert(removed@[j] == listed[j]);
                        }
                    }
                    assert forall|other: KeyIndex| #[trigger]
                        stored_sessions(self.retired).contains_key(other) <==> kept.contains_key(
                            other,
                        ) || idle_among(entries@, i + 1, other, now, idle_timeout) by {
                        lemma_idle_among_step(entries@, i as int, other, now, idle_timeout);
                        assert(shelved.contains_key(other) <==> kept.contains_key(other)
                            || idle_among(entries@, i as int, other, now, idle_timeout));
                    }
                    assert forall|other: KeyIndex| #[trigger]
                        stored_sessions(self.retired).contains_key(other) implies stored_sessions(
                        self.retired,
                    )[other].pending == kept_after(
                        kept,
                        stored,
                        entries@,
                        i + 1,
                        other,
                        now,
                        idle_timeout,
                    ) by {
                        lemma_idle_among_step(entries@, i as int, other, now, idle_timeout);
                        if other == index {
                            assert(held.contains_key(index));
                            if shelved.contains_key(index) {
                                assert(shelved[index].pending == kept_after(
                                    kept,
                                    stored,
                                    entries@,
                                    i as int,
                                    index,
                                    now,
                                    idle_timeout,
                                ));
                                assert(kept.contains_key(index));
                                assert(kept[index].pending + Seq::<AudioNum>::empty()
                                    =~= kept[index].pending);
                            }
                        } else {
                            assert(shelved.contains_key(other));
                            assert(shelved[other].pending == kept_after(
                                kept,
                                stored,
                                entries@,
                                i as int,
                                other,
                                now,
                                idle_timeout,
                            ));
                        }
                    }
                }
            } else {
                proof {
                    assert forall|other: KeyIndex|
                        idle_among(entries@, i + 1, other, now, idle_timeout) <==> idle_among(
                            entries@,
                            i as int,
                            other,
                            now,
                            idle_timeout,
                        ) by {
                        lemma_idle_among_step(entries@, i as int, other, now, idle_timeout);
                    }
                    assert forall|other: KeyIndex| #[trigger]
                        stored_sessions(self.retired).contains_key(other) implies stored_sessions(
                        self.retired,
                    )[other].pending == kept_after(
                        kept,
                        stored,
                        entries@,
                        i + 1,
                        other,
                        now,
                        idle_timeout,
                    ) by {
                        assert(shelved[other].pending == kept_after(
                            kept,
                            stored,
                            entries@,
                            i as int,
                            other,
                            now,
                            idle_timeout,
                        ));
                    }
                }
            }
            i += 1;
        }
        proof {
            let after = self@;
            assert forall|index: KeyIndex| stored.contains_key(index) implies (idle_among(
                entries@,
                entries@.len() as int,
                index,
                now,
                idle_timeout,
            ) <==> stored[index].is_idle(now, idle_timeout)) by {
                let a = choose|a: int| 0 <= a < entries@.len() && (#[trigger] entries@[a]).0 == index;
                if stored[index].is_idle(now, idle_timeout) {
                    assert(entries@[a].2 == stored[index].last_recv);
                }
            }
            assert forall|key: StreamerKey|
                removed@.contains(key) <==> #[trigger] before.expired(now, idle_timeout).contains(
                    key,
                ) by {
                if removed@.contains(key) {
                    let a = choose|a: int|
                        0 <= a < entries@.len() && (#[trigger] entries@[a]).0 == index_of(key)
                            && elapsed_since(entries@[a].2, now) >= idle_timeout;
                    assert(stored.contains_key(index_of(key)));
                }
            }
            assert(after.sessions =~= before.sessions.remove_keys(
                before.expired(now, idle_timeout),
            ));
            assert forall|j: int| 0 <= j < removed@.len() implies notices[j] == before.notices_for(
                removed@,
            )[j] by {
                assert(removed@.contains(removed@[j]));
                assert(before.expired(now, idle_timeout).contains(removed@[j]));
            }
            assert(notices =~= before.notices_for(removed@));
            let swept = before.swept(now, idle_timeout, removed@);
            assert forall|key: StreamerKey| #[trigger]
                after.leftovers.contains_key(key) <==> swept.leftovers.contains_key(key) by {
                assert(stored_sessions(self.retired).contains_key(index_of(key))
                    <==> kept.contains_key(index_of(key)) || idle_among(
                    entries@,
                    entries@.len() as int,
                    index_of(key),
                    now,
                    idle_timeout,
                ));
                if idle_among(entries@, entries@.len() as int, index_of(key), now, idle_timeout) {
                    assert(removed@.contains(key));
                }
                if before.expired(now, idle_timeout).contains(key) {
                    assert(removed@.contains(key));
                }
            }
            assert forall|key: StreamerKey| #[trigger]
                after.leftovers.contains_key(key) implies after.leftovers[key]
                == swept.leftovers[key] by {
                let index = index_of(key);
                assert(stored_sessions(self.retired).contains_key(index));
                assert(after.leftovers[key] == kept_after(
                    kept,
                    stored,
                    entries@,
                    entries@.len() as int,
                    index,
                    now,
                    idle_timeout,
                ));
                if before.expired(now, idle_timeout).contains(key) {
                    assert(removed@.contains(key));
                } else {
                    assert(!removed@.contains(key));
                    assert(kept[index].pending + Seq::<AudioNum>::empty() =~= kept[index].pending);
                }
            }
            assert(after.leftovers =~= swept.leftovers);
            if before.well_numbered() {
                lemma_swept_well_numbered(before, now, idle_timeout, removed@);
            }
        }
        removed
    }

    /// Consumes the pending kill notices: takes out of `storage` every playback
    /// handle that one of them names and hands those back for the caller to
    /// close, and forgets what the removed sessions had left to play. The
    /// other handles stay, in order.
    pub fn drain_kill_notices<H>(&mut self, storage: &mut Vec<IDStream<H>>) -> (closing: Vec<
        IDStream<H>,
    >)
        ensures
            final(self)@ == old(self)@.drained(),
            final(storage)@ == surviving(old(storage)@, old(self)@.kill_notices),
            closing@ == released(old(storage)@, old(self)@.kill_notices),
            old(self)@.well_numbered() ==> final(self)@.well_numbered(),
            old(self)@.numbers(old(storage)@) ==> final(self)@.numbers(final(storage)@),
    {
        proof {
            if self@.well_numbered() {
                lemma_drained_well_numbered(self@);
            }
            if self@.numbers(storage@) {
                lemma_surviving_stay_numbered(self@, storage@, self@.kill_notices);
            }
        }
        let ghost stored = storage@;
        let ghost notices = self.kill_notices@;
        let ghost keep = |entry: IDStream<H>| !notices.contains(entry.id);
        let ghost kill = |entry: IDStream<H>| notices.contains(entry.id);
        let ghost mut done: int = 0;
        let mut closing: Vec<IDStream<H>> = Vec::new();
        let mut i: usize = 0;
        assert(stored.take(0).filter(keep) =~= Seq::empty() && stored.take(0).filter(kill)
            =~= Seq::empty()) by {
            reveal(Seq::filter);
        }
        assert(stored.skip(0) =~= stored);
        while i < storage.len()
            invariant
                0 <= done <= stored.len(),
                notices == self.kill_notices@,
                keep == |entry: IDStream<H>| !notices.contains(entry.id),
                kill == |entry: IDStream<H>| notices.contains(entry.id),
                i == stored.take(done).filter(keep).len(),
                storage@ == stored.take(done).filter(keep) + stored.skip(done),
                closing@ == stored.take(done).filter(kill),
                self.next_stream_id == old(self).next_stream_id,
                stored_sessions(self.sessions) == stored_sessions(old(self).sessions),
            decreases stored.len() - done,
        {
            let ghost current = storage@;
            assert(current[i as int] == stored[done]);
            assert(stored.take(done + 1) =~= stored.take(done).push(stored[done]));
            proof {
                stored.take(done).lemma_filter_push(stored[done], keep);
                stored.take(done).lemma_filter_push(stored[done], kill);
            }
            if is_listed(&self.kill_notices, storage[i].id) {
                let entry = storage.remove(i);
                closing.push(entry);
                assert(storage@ =~= stored.take(done + 1).filter(keep) + stored.skip(done + 1));
            } else {
                i += 1;
                assert(storage@ =~= stored.take(done + 1).filter(keep) + stored.skip(done + 1));
            }
            proof {
                done = done + 1;
            }
        }
        assert(stored.take(done) =~= stored);
        self.kill_notices.clear();
        self.retired = sessions_new();
        assert(final(self)@.leftovers =~= Map::empty());
        closing
    }

    /// One pass of garbage collection: sweeps the sessions idle for
    /// [`STREAMZ_TIMEOUT_MS`] or longer, then drains the kill notices. Gives
    /// the keys of the removed sessions and the playback handles to close.
    pub fn gc_streamerz<H>(&mut self, now: u64, storage: &mut Vec<IDStream<H>>) -> (collected: (
        Vec<StreamerKey>,
        Vec<IDStream<H>>,
    ))
        ensures
            old(self)@.lists_expired(now, STREAMZ_TIMEOUT_MS, collected.0@),
            final(self)@ == old(self)@.swept(now, STREAMZ_TIMEOUT_MS, collected.0@).drained(),
            final(storage)@ == surviving(
                old(storage)@,
                old(self)@.swept(now, STREAMZ_TIMEOUT_MS, collected.0@).kill_notices,
            ),
            collected.1@ == released(
                old(storage)@,
                old(self)@.swept(now, STREAMZ_TIMEOUT_MS, collected.0@).kill_notices,
            ),
            old(self)@.well_numbered() ==> final(self)@.well_numbered(),
            old(self)@.numbers(old(storage)@) ==> final(self)@.numbers(final(storage)@),
    {
        let removed = self.sweep(now, STREAMZ_TIMEOUT_MS);
        let closing = self.drain_kill_notices(storage);
        (removed, closing)
    }

    /// Opens the session for `key`, whose playback handle the caller has just
    /// made, and routes to it the chunk that asked for it. A new session's
    /// handle is stored under the session's identifier; where the key had a
    /// session already, the chunk goes to that one and the handle is let go.
    pub fn install<H>(
        &mut self,
        key: StreamerKey,
        sequence: u16,
        samples: &[AudioNum],
        now: u64,
        handle: H,
        storage: &mut Vec<IDStream<H>>,
    ) -> (created: Option<u32>)
        ensures
            final(self)@ == old(self)@.installed(key, sequence, samples@, now),
            created == if old(self)@.sessions.contains_key(key) {
                None
            } else {
                Some(old(self)@.next_stream_id)
            },
            final(storage)@ == match created {
                Some(id) => old(storage)@.push(IDStream { id, handle }),
                None => old(storage)@,
            },
            old(self)@.well_numbered() && (old(self)@.sessions.contains_key(key)
                || old(self)@.next_stream_id < u32::MAX) ==> final(self)@.well_numbered(),
            old(self)@.numbers(old(storage)@) && (old(self)@.sessions.contains_key(key)
                || old(self)@.next_stream_id < u32::MAX) ==> final(self)@.numbers(
                final(storage)@,
            ),
    {
        let created = self.open(key, now);
        let _ = self.route(&key, sequence, samples, now);
        if let Some(id) = created {
            storage.push(IDStream { id, handle });
        }
        created
    }

    /// The kill notices that wait to be drained, oldest first.
    pub fn kill_notices(&self) -> (notices: &Vec<u32>)
        ensures
            notices@ == self@.kill_notices,
    {
        &self.kill_notices
    }
}

/// Looking one entry further finds what was found before, or that entry.
proof fn lemma_idle_among_step(
    entries: Seq<(KeyIndex, u32, u64)>,
    upto: int,
    index: KeyIndex,
    now: u64,
    idle_timeout: u64,
)
    requires
        0 <= upto < entries.len(),
    ensures
        idle_among(entries, upto + 1, index, now, idle_timeout) <==> idle_among(
            entries,
            upto,
            index,
            now,
            idle_timeout,
        ) || (entries[upto].0 == index && elapsed_since(entries[upto].2, now) >= idle_timeout),
{
    if idle_among(entries, upto, index, now, idle_timeout) {
        let a = choose|a: int|
            0 <= a < upto && (#[trigger] entries[a]).0 == index && elapsed_since(entries[a].2, now)
                >= idle_timeout;
        assert(0 <= a < upto + 1);
    }
    if entries[upto].0 == index && elapsed_since(entries[upto].2, now) >= idle_timeout {
        assert(0 <= upto < upto + 1 && entries[upto].0 == index);
    }
}

/// What became of one datagram.
pub enum Reception {
    /// The datagram holds no sound chunk that this codec accepts; nothing changed.
    Broken,
    /// The chunk went to the session of `key`; `lost` says whether its sequence
    /// number revealed a loss.
    Routed { key: StreamerKey, lost: bool },
    /// The key has no session yet; nothing changed. The frame comes back so
    /// that it can be routed once a playback handle and a session exist.
    Unopened { key: StreamerKey, frame: AudioFrame },
}

/// The key of the stream that a frame from `emiter_ip` belongs to.
pub open spec fn key_of_frame(emiter_ip: SenderAddr, frame: FrameModel) -> StreamerKey {
    StreamerKey {
        emiter_ip,
        sample_rate: frame.sample_rate,
        n_audio_channels: frame.channel_count,
    }
}

impl RegistryModel {
    /// The registry after a datagram from `emiter_ip` that decoded to `frame`.
    pub open spec fn received(
        self,
        emiter_ip: SenderAddr,
        frame: Option<FrameModel>,
        now: u64,
    ) -> RegistryModel {
        match frame {
            Some(f) => self.routed(key_of_frame(emiter_ip, f), f.sequence, f.samples, now),
            None => self,
        }
    }

    /// Whether `reception` is the account owed for a datagram from `emiter_ip`
    /// that decoded to `frame`, in this registry.
    pub open spec fn accounts_for(
        self,
        reception: Reception,
        emiter_ip: SenderAddr,
        frame: Option<FrameModel>,
    ) -> bool {
        match frame {
            None => reception is Broken,
            Some(f) => {
                let key = key_of_frame(emiter_ip, f);
                if self.sessions.contains_key(key) {
                    reception == (Reception::Routed {
                        key,
                        lost: f.sequence != self.sessions[key].expected_sequence,
                    })
                } else {
                    match reception {
                        Reception::Unopened { key: unopened, frame: returned } => unopened == key
                            && returned@ == f,
                        _ => false,
                    }
                }
            },
        }
    }
}

impl Registry {
    /// Handles one decoded datagram from `emiter_ip`: routes the frame to the
    /// session of its key, or hands it back where the key has none.
    pub fn dispatch(&mut self, emiter_ip: SenderAddr, frame: Option<AudioFrame>, now: u64) -> (reception:
        Reception)
        ensures
            final(self)@ == old(self)@.received(emiter_ip, frame_model(frame), now),
            old(self)@.accounts_for(reception, emiter_ip, frame_model(frame)),
            old(self)@.well_numbered() ==> final(self)@.well_numbered(),
    {
        match frame {
            None => Reception::Broken,
            Some(frame) => {
                let key = StreamerKey::new(emiter_ip, frame.sample_rate, frame.channel_count);
                match self.route(&key, frame.sequence, frame.samples.as_slice(), now) {
                    Some(lost) => Reception::Routed { key, lost },
                    None => Reception::Unopened { key, frame },
                }
            },
        }
    }

    /// Handles one datagram from `emiter_ip`: decodes it, then routes the frame
    /// to the session of its key, or hands it back where the key has none.
    pub fn receive(&mut self, emiter_ip: SenderAddr, datagram: &[u8], now: u64) -> (reception:
        Reception)
        ensures
            final(self)@ == old(self)@.received(
                emiter_ip,
                decoded_frame(wire_decoding(datagram@)),
                now,
            ),
            old(self)@.accounts_for(
                reception,
                emiter_ip,
                decoded_frame(wire_decoding(datagram@)),
            ),
            old(self)@.well_numbered() ==> final(self)@.well_numbered(),
    {
        self.dispatch(emiter_ip, unpack_data(datagram), now)
    }
}

} // verus!
