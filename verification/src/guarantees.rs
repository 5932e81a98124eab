//! What the registry guarantees over whole runs: streams do not mix, a fed
//! session outlives the sweep, and a removed session takes its playback handle
//! along.

use crate::message_packing::AudioNum;
use crate::registry::{surviving, IDStream, RegistryModel};
use crate::streamer::{elapsed_since, silence_padded, StreamerKey, StreamerModel};
use vstd::prelude::*;

verus! {

/// One chunk on its way into the registry.
pub ghost struct Chunk {
    pub key: StreamerKey,
    pub sequence: u16,
    pub samples: Seq<AudioNum>,
    pub now: u64,
}

impl RegistryModel {
    /// The registry after a chunk arrived and the playback handle for its key
    /// could be made: the session is opened if need be, then fed.
    pub open spec fn delivered(self, chunk: Chunk) -> RegistryModel {
        self.installed(chunk.key, chunk.sequence, chunk.samples, chunk.now)
    }

    /// The registry after the chunks arrived one after the other.
    pub open spec fn delivered_all(self, chunks: Seq<Chunk>) -> RegistryModel
        decreases chunks.len(),
    {
        if chunks.len() == 0 {
            self
        } else {
            self.delivered_all(chunks.drop_last()).delivered(chunks.last())
        }
    }

    /// Whether the session of `key`, if there is one, still has its consumer.
    pub open spec fn is_consumed(self, key: StreamerKey) -> bool {
        self.sessions.contains_key(key) ==> !self.sessions[key].consumer_gone
    }
}

/// The samples of the chunks addressed to `key`, in the order of arrival.
pub open spec fn payload_for(chunks: Seq<Chunk>, key: StreamerKey) -> Seq<AudioNum>
    decreases chunks.len(),
{
    if chunks.len() == 0 {
        Seq::empty()
    } else if chunks.last().key == key {
        payload_for(chunks.drop_last(), key) + chunks.last().samples
    } else {
        payload_for(chunks.drop_last(), key)
    }
}

/// Whether one of the chunks is addressed to `key`.
pub open spec fn mentions(chunks: Seq<Chunk>, key: StreamerKey) -> bool {
    exists|i: int| 0 <= i < chunks.len() && (#[trigger] chunks[i]).key == key
}

/// After any run of deliveries, a key has a session exactly if it had one
/// before or a chunk was addressed to it.
pub proof fn lemma_sessions_follow_keys(before: RegistryModel, chunks: Seq<Chunk>, key: StreamerKey)
    ensures
        before.delivered_all(chunks).sessions.contains_key(key) <==> before.sessions.contains_key(
            key,
        ) || mentions(chunks, key),
    decreases chunks.len(),
{
    if chunks.len() > 0 {
        let earlier = chunks.drop_last();
        lemma_sessions_follow_keys(before, earlier, key);
        if mentions(earlier, key) {
            let i = choose|i: int| 0 <= i < earlier.len() && (#[trigger] earlier[i]).key == key;
            assert(chunks[i].key == key);
        }
        if mentions(chunks, key) {
            let i = choose|i: int| 0 <= i < chunks.len() && (#[trigger] chunks[i]).key == key;
            if i < earlier.len() {
                assert(earlier[i].key == key);
            }
        }
        if chunks.last().key == key {
            assert(chunks[chunks.len() - 1].key == key);
        }
    }
}

/// Streams do not mix: after any run of deliveries, however interleaved, the
/// samples pending under a key are those that were pending before, followed by
/// the samples of the chunks addressed to that key, in order, and nothing else.
pub proof fn lemma_streams_do_not_mix(before: RegistryModel, chunks: Seq<Chunk>, key: StreamerKey)
    requires
        before.is_consumed(key),
    ensures
        before.delivered_all(chunks).is_consumed(key),
        before.delivered_all(chunks).pending(key) == before.pending(key) + payload_for(
            chunks,
            key,
        ),
    decreases chunks.len(),
{
    if chunks.len() == 0 {
        assert(before.pending(key) + Seq::<AudioNum>::empty() =~= before.pending(key));
    } else {
        let earlier = chunks.drop_last();
        let chunk = chunks.last();
        lemma_streams_do_not_mix(before, earlier, key);
        let held = before.delivered_all(earlier);
        let after = held.delivered(chunk);
        assert(after.pending(key) =~= before.pending(key) + payload_for(chunks, key));
    }
}

/// Deliveries touch neither the leftovers, nor the kill notices.
pub proof fn lemma_delivery_spares_leftovers(before: RegistryModel, chunks: Seq<Chunk>)
    ensures
        before.delivered_all(chunks).leftovers == before.leftovers,
        before.delivered_all(chunks).kill_notices == before.kill_notices,
    decreases chunks.len(),
{
    if chunks.len() > 0 {
        lemma_delivery_spares_leftovers(before, chunks.drop_last());
    }
}

/// What a consumer pulls after a run of deliveries into a registry that had no
/// session for its key: the samples addressed to that key, then silence.
pub proof fn lemma_pull_yields_own_payload(
    before: RegistryModel,
    chunks: Seq<Chunk>,
    key: StreamerKey,
    count: nat,
)
    requires
        !before.sessions.contains_key(key),
        !before.leftovers.contains_key(key),
    ensures
        before.delivered_all(chunks).pulled_frame(key, count) == silence_padded(
            payload_for(chunks, key),
            count,
        ),
{
    lemma_streams_do_not_mix(before, chunks, key);
    lemma_delivery_spares_leftovers(before, chunks);
    assert(Seq::<AudioNum>::empty() + payload_for(chunks, key) =~= payload_for(chunks, key));
    assert(Seq::<AudioNum>::empty() + before.delivered_all(chunks).pending(key)
        =~= before.delivered_all(chunks).pending(key));
}

/// Two senders, two sessions: chunks addressed to two distinct keys, however
/// interleaved, leave an empty registry with exactly the sessions of those two.
pub proof fn lemma_two_keys_two_sessions(chunks: Seq<Chunk>, a: StreamerKey, b: StreamerKey)
    requires
        a != b,
        mentions(chunks, a),
        mentions(chunks, b),
        forall|i: int| 0 <= i < chunks.len() ==> (#[trigger] chunks[i]).key == a || chunks[i].key == b,
    ensures
        RegistryModel::empty().delivered_all(chunks).sessions.dom() == set![a, b],
        RegistryModel::empty().delivered_all(chunks).sessions.dom().len() == 2,
{
    let after = RegistryModel::empty().delivered_all(chunks);
    assert forall|key: StreamerKey| after.sessions.dom().contains(key) <==> set![a, b].contains(
        key,
    ) by {
        lemma_sessions_follow_keys(RegistryModel::empty(), chunks, key);
    }
    assert(after.sessions.dom() =~= set![a, b]);
    assert(set![a, b] =~= Set::<StreamerKey>::empty().insert(a).insert(b));
    assert(Set::<StreamerKey>::empty().insert(a).insert(b).len() == 2) by {
        broadcast use vstd::set::group_set_axioms;

    }
}

/// A sweep removes a session exactly if it has been idle for the timeout or
/// longer, and leaves every other session as it was.
pub proof fn lemma_sweep_removes_the_idle(
    before: RegistryModel,
    now: u64,
    idle_timeout: u64,
    removed: Seq<StreamerKey>,
    key: StreamerKey,
)
    requires
        before.sessions.contains_key(key),
    ensures
        before.swept(now, idle_timeout, removed).sessions.contains_key(key) <==> elapsed_since(
            before.sessions[key].last_recv,
            now,
        ) < idle_timeout,
        before.swept(now, idle_timeout, removed).sessions.contains_key(key) ==> before.swept(
            now,
            idle_timeout,
            removed,
        ).sessions[key] == before.sessions[key],
{
}

/// A session with a consumer that got a chunk less than the timeout ago
/// outlives the sweep.
pub proof fn lemma_fed_session_survives(
    before: RegistryModel,
    key: StreamerKey,
    sequence: u16,
    samples: Seq<AudioNum>,
    at: u64,
    now: u64,
    idle_timeout: u64,
    removed: Seq<StreamerKey>,
)
    requires
        before.sessions.contains_key(key),
        !before.sessions[key].consumer_gone,
        elapsed_since(at, now) < idle_timeout,
    ensures
        before.routed(key, sequence, samples, at).swept(
            now,
            idle_timeout,
            removed,
        ).sessions.contains_key(key),
{
    let fed = before.routed(key, sequence, samples, at);
    assert(fed.sessions[key].last_recv >= at);
    lemma_sweep_removes_the_idle(fed, now, idle_timeout, removed, key);
}

/// A removed session emits exactly one kill notice, which carries its
/// identifier; once the notices are drained, no stored playback handle bears
/// that identifier, and no notice is left.
pub proof fn lemma_removed_session_takes_its_handle<H>(
    before: RegistryModel,
    now: u64,
    idle_timeout: u64,
    removed: Seq<StreamerKey>,
    key: StreamerKey,
    storage: Seq<IDStream<H>>,
)
    requires
        before.lists_expired(now, idle_timeout, removed),
        before.expired(now, idle_timeout).contains(key),
    ensures
        before.swept(now, idle_timeout, removed).kill_notices.len() == before.kill_notices.len()
            + removed.len(),
        exists|i: int|
            {
                &&& 0 <= i < removed.len()
                &&& #[trigger] removed[i] == key
                &&& before.swept(now, idle_timeout, removed).kill_notices[before.kill_notices.len()
                    + i] == before.sessions[key].stream_id
                &&& forall|j: int| 0 <= j < removed.len() && #[trigger] removed[j] == key ==> j == i
            },
        forall|i: int|
            0 <= i < surviving(storage, before.swept(now, idle_timeout, removed).kill_notices).len()
                ==> (#[trigger] surviving(
                storage,
                before.swept(now, idle_timeout, removed).kill_notices,
            )[i]).id != before.sessions[key].stream_id,
        before.swept(now, idle_timeout, removed).drained().kill_notices.len() == 0,
{
    let after = before.swept(now, idle_timeout, removed);
    let notices = after.kill_notices;
    let stream_id = before.sessions[key].stream_id;
    assert(removed.contains(key));
    let i = choose|i: int| 0 <= i < removed.len() && removed[i] == key;
    assert(notices[before.kill_notices.len() + i] == stream_id);
    assert(notices.contains(stream_id));
    assert forall|j: int| 0 <= j < removed.len() && #[trigger] removed[j] == key implies j == i by {
        if j != i {
            assert(removed[j] != removed[i]);
        }
    }
    let keep = |entry: IDStream<H>| !notices.contains(entry.id);
    assert forall|n: int| 0 <= n < surviving(storage, notices).len() implies (#[trigger] surviving(
        storage,
        notices,
    )[n]).id != stream_id by {
        storage.lemma_filter_pred(keep, n);
    }
}

/// A sweep silences nothing: whatever the consumer of a key had yet to hear
/// before the sweep, it has yet to hear after it, removed session or not.
pub proof fn lemma_sweep_keeps_samples_audible(
    before: RegistryModel,
    now: u64,
    idle_timeout: u64,
    removed: Seq<StreamerKey>,
    key: StreamerKey,
    count: nat,
)
    ensures
        before.swept(now, idle_timeout, removed).audible(key) == before.audible(key),
        before.swept(now, idle_timeout, removed).pulled_frame(key, count) == before.pulled_frame(
            key,
            count,
        ),
{
    let after = before.swept(now, idle_timeout, removed);
    assert(after.audible(key) =~= before.audible(key));
}

/// Once the kill notices are drained, a consumer hears the live session alone.
pub proof fn lemma_drain_ends_the_leftovers(before: RegistryModel, key: StreamerKey)
    ensures
        before.drained().audible(key) == before.pending(key),
        before.drained().sessions == before.sessions,
{
    assert(before.drained().audible(key) =~= before.pending(key));
}

/// A session that is not idle escapes the sweep altogether: it stays as it
/// was, no kill notice names it, and the drain keeps its playback handle.
pub proof fn lemma_survivor_keeps_its_handle<H>(
    before: RegistryModel,
    now: u64,
    idle_timeout: u64,
    removed: Seq<StreamerKey>,
    key: StreamerKey,
    storage: Seq<IDStream<H>>,
    place: int,
)
    requires
        before.well_numbered(),
        before.lists_expired(now, idle_timeout, removed),
        before.sessions.contains_key(key),
        !before.sessions[key].is_idle(now, idle_timeout),
        0 <= place < storage.len(),
        storage[place].id == before.sessions[key].stream_id,
    ensures
        before.swept(now, idle_timeout, removed).sessions.contains_key(key),
        before.swept(now, idle_timeout, removed).sessions[key] == before.sessions[key],
        !before.swept(now, idle_timeout, removed).kill_notices.contains(
            before.sessions[key].stream_id,
        ),
        surviving(storage, before.swept(now, idle_timeout, removed).kill_notices).contains(
            storage[place],
        ),
{
    let after = before.swept(now, idle_timeout, removed);
    let notices = after.kill_notices;
    crate::numbering::lemma_swept_well_numbered(before, now, idle_timeout, removed);
    assert(after.sessions.contains_key(key));
    if notices.contains(before.sessions[key].stream_id) {
        let i = choose|i: int| 0 <= i < notices.len() && notices[i] == before.sessions[key].stream_id;
        assert(notices[i] != after.sessions[key].stream_id);
    }
    let keep = |entry: IDStream<H>| !notices.contains(entry.id);
    storage.lemma_filter_contains(keep, place);
}

/// A key that comes back after its session was removed gets a session of its
/// own: empty, expecting sequence 0, under an identifier that the removed
/// session did not bear.
pub proof fn lemma_returning_key_starts_afresh(
    before: RegistryModel,
    now: u64,
    idle_timeout: u64,
    removed: Seq<StreamerKey>,
    key: StreamerKey,
    at: u64,
)
    requires
        before.well_numbered(),
        before.expired(now, idle_timeout).contains(key),
    ensures
        before.swept(now, idle_timeout, removed).opened(key, at).sessions[key]
            == StreamerModel::fresh(before.next_stream_id, at),
        before.next_stream_id != before.sessions[key].stream_id,
{
}

/// The identifier under which a new session's playback handle is stored is
/// borne by no handle stored before.
pub proof fn lemma_new_handle_has_new_id<H>(
    before: RegistryModel,
    storage: Seq<IDStream<H>>,
    place: int,
)
    requires
        before.numbers(storage),
        0 <= place < storage.len(),
    ensures
        storage[place].id != before.next_stream_id,
{
}

} // verus!
