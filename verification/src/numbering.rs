//! Identifiers stay distinct: every operation of the registry keeps the
//! sessions and the kill notices well numbered, for as long as the identifier
//! counter has not wrapped.

use crate::message_packing::{AudioNum, FrameModel};
use crate::registry::{IDStream, RegistryModel};
use crate::streamer::{SenderAddr, StreamerKey};
use vstd::prelude::*;

verus! {

/// An empty registry is well numbered.
pub proof fn lemma_empty_well_numbered()
    ensures
        RegistryModel::empty().well_numbered(),
{
}

/// Opening a session keeps the numbering, unless it uses up the last identifier.
pub proof fn lemma_opened_well_numbered(before: RegistryModel, key: StreamerKey, now: u64)
    requires
        before.well_numbered(),
        before.sessions.contains_key(key) || before.next_stream_id < u32::MAX,
    ensures
        before.opened(key, now).well_numbered(),
{
}

/// Routing a chunk keeps the numbering.
pub proof fn lemma_routed_well_numbered(
    before: RegistryModel,
    key: StreamerKey,
    sequence: u16,
    samples: Seq<AudioNum>,
    now: u64,
)
    requires
        before.well_numbered(),
    ensures
        before.routed(key, sequence, samples, now).well_numbered(),
{
}

/// Opening a session and routing to it keeps the numbering, unless it uses up
/// the last identifier.
pub proof fn lemma_installed_well_numbered(
    before: RegistryModel,
    key: StreamerKey,
    sequence: u16,
    samples: Seq<AudioNum>,
    now: u64,
)
    requires
        before.well_numbered(),
        before.sessions.contains_key(key) || before.next_stream_id < u32::MAX,
    ensures
        before.installed(key, sequence, samples, now).well_numbered(),
{
    lemma_opened_well_numbered(before, key, now);
    lemma_routed_well_numbered(before.opened(key, now), key, sequence, samples, now);
}

/// Handling a datagram keeps the numbering.
pub proof fn lemma_received_well_numbered(
    before: RegistryModel,
    emiter_ip: SenderAddr,
    frame: Option<FrameModel>,
    now: u64,
)
    requires
        before.well_numbered(),
    ensures
        before.received(emiter_ip, frame, now).well_numbered(),
{
}

/// Pulling keeps the numbering.
pub proof fn lemma_pulled_well_numbered(before: RegistryModel, key: StreamerKey, count: nat)
    requires
        before.well_numbered(),
    ensures
        before.pulled(key, count).well_numbered(),
{
}

/// The end of a consumer keeps the numbering.
pub proof fn lemma_disconnected_well_numbered(before: RegistryModel, key: StreamerKey)
    requires
        before.well_numbered(),
    ensures
        before.disconnected(key).well_numbered(),
{
}

/// A sweep keeps the numbering: the notices it emits name the removed
/// sessions, which no live session and no earlier notice does.
pub proof fn lemma_swept_well_numbered(
    before: RegistryModel,
    now: u64,
    idle_timeout: u64,
    removed: Seq<StreamerKey>,
)
    requires
        before.well_numbered(),
        before.lists_expired(now, idle_timeout, removed),
    ensures
        before.swept(now, idle_timeout, removed).well_numbered(),
{
    let after = before.swept(now, idle_timeout, removed);
    let emitted = before.notices_for(removed);
    let old_len = before.kill_notices.len() as int;
    assert forall|j: int| 0 <= j < removed.len() implies before.expired(
        now,
        idle_timeout,
    ).contains(#[trigger] removed[j]) by {
        assert(removed.contains(removed[j]));
    }
    assert forall|i: int| 0 <= i < after.kill_notices.len() implies #[trigger] after.kill_notices[i]
        < after.next_stream_id by {
        if i >= old_len {
            assert(after.kill_notices[i] == emitted[i - old_len]);
            assert(before.sessions.contains_key(removed[i - old_len]));
        }
    }
    assert forall|key: StreamerKey, i: int| #[trigger]
        after.sessions.contains_key(key) && 0 <= i < after.kill_notices.len()
        implies #[trigger] after.kill_notices[i] != after.sessions[key].stream_id by {
        assert(before.sessions.contains_key(key));
        if i >= old_len {
            assert(after.kill_notices[i] == emitted[i - old_len]);
            assert(before.sessions.contains_key(removed[i - old_len]));
            assert(removed[i - old_len] != key);
        }
    }
    assert forall|i: int, j: int|
        0 <= i < after.kill_notices.len() && 0 <= j < after.kill_notices.len() && i != j
        implies after.kill_notices[i] != after.kill_notices[j] by {
        if i >= old_len {
            assert(after.kill_notices[i] == emitted[i - old_len]);
            assert(before.sessions.contains_key(removed[i - old_len]));
        }
        if j >= old_len {
            assert(after.kill_notices[j] == emitted[j - old_len]);
            assert(before.sessions.contains_key(removed[j - old_len]));
        }
        if i >= old_len && j >= old_len {
            assert(removed[i - old_len] != removed[j - old_len]);
        }
    }
}

/// Draining keeps the numbering.
pub proof fn lemma_drained_well_numbered(before: RegistryModel)
    requires
        before.well_numbered(),
    ensures
        before.drained().well_numbered(),
{
}

/// Handles that outlast a drain keep the identifiers they had.
pub proof fn lemma_surviving_stay_numbered<H>(
    before: RegistryModel,
    storage: Seq<IDStream<H>>,
    notices: Seq<u32>,
)
    requires
        before.numbers(storage),
    ensures
        before.numbers(crate::registry::surviving(storage, notices)),
{
    let keep = |entry: IDStream<H>| !notices.contains(entry.id);
    let kept = storage.filter(keep);
    assert forall|i: int| 0 <= i < kept.len() implies (#[trigger] kept[i]).id
        < before.next_stream_id by {
        storage.lemma_filter_contains_rev(keep, kept[i]);
        let j = choose|j: int| 0 <= j < storage.len() && storage[j] == kept[i];
        assert(storage[j].id < before.next_stream_id);
    }
}

} // verus!
