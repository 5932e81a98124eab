//! The concurrent map that holds the sessions, with what this library relies on
//! from each of its operations.

use crate::streamer::{Streamer, StreamerModel};
use dashmap::DashMap;
use vstd::prelude::*;

verus! {

/// `dashmap::DashMap`, known only through the operations below.
#[verifier::external_type_specification]
#[verifier::external_body]
#[verifier::reject_recursive_types(K)]
#[verifier::reject_recursive_types(V)]
#[verifier::reject_recursive_types(S)]
pub struct ExDashMap<K, V, S>(DashMap<K, V, S>);

/// A session key as the tuple of numbers under which the map files it:
/// address family, address, port, flow label, scope, sample rate, channels.
pub type KeyIndex = (bool, u128, u16, u32, u32, u32, u16);

/// The entries of the map: each key with the model of the session stored under it.
pub uninterp spec fn stored_sessions(
    map: DashMap<(bool, u128, u16, u32, u32, u32, u16), Streamer>,
) -> Map<(bool, u128, u16, u32, u32, u32, u16), StreamerModel>;

/// No entries.
pub open spec fn no_sessions() -> Map<KeyIndex, StreamerModel> {
    Map::empty()
}

/// Whether the entries are finitely many, `count` in number.
pub open spec fn holds_exactly(stored: Map<KeyIndex, StreamerModel>, count: nat) -> bool {
    stored.dom().finite() && stored.dom().len() == count
}

/// `DashMap::new`: a map without entries.
#[verifier::external_body]
pub(crate) fn sessions_new() -> (created: DashMap<KeyIndex, Streamer>)
    ensures
        stored_sessions(created) == no_sessions(),
{
    DashMap::new()
}

/// `DashMap::contains_key`: whether an entry is filed under the key.
#[verifier::external_body]
pub(crate) fn sessions_contains_key(map: &DashMap<KeyIndex, Streamer>, key: &KeyIndex) -> (found:
    bool)
    ensures
        found == stored_sessions(*map).contains_key(*key),
{
    map.contains_key(key)
}

/// `DashMap::len`: the number of entries, of which there are finitely many.
#[verifier::external_body]
pub(crate) fn sessions_len(map: &DashMap<KeyIndex, Streamer>) -> (count: usize)
    ensures
        holds_exactly(stored_sessions(*map), count as nat),
{
    map.len()
}

/// `DashMap::insert`: files the session under the key, in place of the one that
/// was there, and hands back the one it replaced. Other entries stay as they are.
#[verifier::external_body]
pub(crate) fn sessions_insert(
    map: &mut DashMap<KeyIndex, Streamer>,
    key: KeyIndex,
    streamer: Streamer,
) -> (replaced: Option<Streamer>)
    ensures
        stored_sessions(*final(map)) == stored_sessions(*old(map)).insert(key, streamer@),
        match replaced {
            Some(previous) => stored_sessions(*old(map)).contains_key(key) && previous@
                == stored_sessions(*old(map))[key],
            None => !stored_sessions(*old(map)).contains_key(key),
        },
{
    map.insert(key, streamer)
}

/// `DashMap::remove`: takes out the entry filed under the key, if there is one,
/// and hands it back. Other entries stay as they are.
#[verifier::external_body]
pub(crate) fn sessions_remove(map: &mut DashMap<KeyIndex, Streamer>, key: &KeyIndex) -> (removed:
    Option<(KeyIndex, Streamer)>)
    ensures
        stored_sessions(*final(map)) == stored_sessions(*old(map)).remove(*key),
        match removed {
            Some((index, streamer)) => index == *key && stored_sessions(*old(map)).contains_key(
                *key,
            ) && streamer@ == stored_sessions(*old(map))[*key],
            None => !stored_sessions(*old(map)).contains_key(*key),
        },
{
    map.remove(key)
}

/// `DashMap::iter`, collected: every entry once, in no promised order, as its key
/// with the session's identifier and the time of its last chunk.
#[verifier::external_body]
pub(crate) fn sessions_snapshot(map: &DashMap<KeyIndex, Streamer>) -> (entries: Vec<
    (KeyIndex, u32, u64),
>)
    ensures
        forall|i: int, j: int|
            0 <= i < j < entries@.len() ==> (#[trigger] entries@[i]).0 != (#[trigger] entries@[j]).0,
        forall|i: int|
            0 <= i < entries@.len() ==> {
                let (index, stream_id, last_recv) = #[trigger] entries@[i];
                stored_sessions(*map).contains_key(index) && stored_sessions(*map)[index].stream_id
                    == stream_id && stored_sessions(*map)[index].last_recv == last_recv
            },
        forall|index: KeyIndex| #[trigger]
            stored_sessions(*map).contains_key(index) ==> exists|i: int|
                0 <= i < entries@.len() && (#[trigger] entries@[i]).0 == index,
{
    map.iter()
        .map(|entry| (*entry.key(), entry.value().stream_id(), entry.value().last_recv()))
        .collect()
}

} // verus!
