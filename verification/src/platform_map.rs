//! Bevy's platform hash map, as far as the snapshot stores use it.
//!
//! A store keeps its values in a vector and uses one of these maps to find the position of a
//! value by its key, so the maps hold positions: [`FrameIndex`] is keyed by frame number,
//! [`EntityIndex`] by the bits of an entity. Everything in this file is trusted: the contracts
//! say what `bevy::platform::collections::HashMap` does to the association of keys to
//! positions. Which buckets it has allocated is left unsaid.

use bevy::platform::collections::HashMap;
use bevy::platform::hash::FixedHasher;
use vstd::prelude::*;

verus! {

/// The largest number of keys for which room is asked in advance.
///
/// The map panics where its table would span more than `isize::MAX` bytes. A bucket takes up to
/// 17 bytes, and a table that grows to hold `n` keys has fewer than `n * 32 / 7` buckets, so that
/// there is room for this many on every machine that could hold them.
pub const MAX_RESERVED: usize = usize::MAX / 160;

/// `bevy::platform::collections::HashMap`.
#[verifier::external_type_specification]
#[verifier::external_body]
#[verifier::reject_recursive_types(K)]
#[verifier::reject_recursive_types(V)]
#[verifier::reject_recursive_types(S)]
pub struct ExPlatformHashMap<K, V, S>(HashMap<K, V, S>);

/// `bevy::platform::hash::FixedHasher`, the hash builder of that map.
#[verifier::external_type_specification]
#[verifier::external_body]
pub struct ExFixedHasher(FixedHasher);

/// Positions by frame number.
pub type FrameIndex = HashMap<i32, usize, FixedHasher>;

/// Positions by entity bits.
pub type EntityIndex = HashMap<u64, usize, FixedHasher>;

/// The association that a frame index holds.
pub uninterp spec fn frame_positions(index: HashMap<i32, usize, FixedHasher>) -> Map<i32, usize>;

/// The association that an entity index holds.
pub uninterp spec fn entity_positions(index: HashMap<u64, usize, FixedHasher>) -> Map<u64, usize>;

/// `HashMap::with_capacity`: a map with no keys. It panics where room for `capacity` keys
/// cannot be laid out, which the bound keeps out.
#[verifier::external_body]
pub(crate) fn frame_index_with_capacity(capacity: usize) -> (index: FrameIndex)
    requires
        capacity <= MAX_RESERVED,
    ensures
        (frame_positions(index) == Map::<i32, usize>::empty()),
{
    HashMap::with_capacity(capacity)
}

/// `HashMap::capacity`: how many keys fit before the map grows, which is never less than the
/// number of keys that it holds.
#[verifier::external_body]
pub(crate) fn frame_index_capacity(index: &FrameIndex) -> (capacity: usize)
    ensures
        frame_positions(*index).len() <= capacity,
{
    index.capacity()
}

/// `HashMap::reserve`: makes room for `additional` more keys and leaves the association as it
/// is. It panics where that room cannot be laid out, which the bound keeps out.
#[verifier::external_body]
pub(crate) fn frame_index_reserve(index: &mut FrameIndex, additional: usize)
    requires
        frame_positions(*old(index)).len() + additional <= MAX_RESERVED,
    ensures
        frame_positions(*final(index)) == frame_positions(*old(index)),
{
    index.reserve(additional);
}

/// `HashMap::get`: the position of a frame, if the map holds one.
#[verifier::external_body]
pub(crate) fn frame_index_get(index: &FrameIndex, frame: i32) -> (position: Option<usize>)
    ensures
        position == (if frame_positions(*index).contains_key(frame) {
            Some(frame_positions(*index)[frame])
        } else {
            None
        }),
{
    index.get(&frame).copied()
}

/// `HashMap::insert`: associates a frame with a position, in place of any that it had.
#[verifier::external_body]
pub(crate) fn frame_index_insert(index: &mut FrameIndex, frame: i32, position: usize)
    ensures
        frame_positions(*final(index)) == frame_positions(*old(index)).insert(frame, position),
{
    index.insert(frame, position);
}

/// `HashMap::remove`: forgets a frame.
#[verifier::external_body]
pub(crate) fn frame_index_remove(index: &mut FrameIndex, frame: i32)
    ensures
        frame_positions(*final(index)) == frame_positions(*old(index)).remove(frame),
{
    index.remove(&frame);
}

/// `HashMap::new`: a map with no keys.
#[verifier::external_body]
pub(crate) fn entity_index_new() -> (index: EntityIndex)
    ensures
        (entity_positions(index) == Map::<u64, usize>::empty()),
{
    HashMap::new()
}

/// `HashMap::get`: the position of an entity, if the map holds one.
#[verifier::external_body]
pub(crate) fn entity_index_get(index: &EntityIndex, entity: u64) -> (position: Option<usize>)
    ensures
        position == (if entity_positions(*index).contains_key(entity) {
            Some(entity_positions(*index)[entity])
        } else {
            None
        }),
{
    index.get(&entity).copied()
}

/// `HashMap::insert`: associates an entity with a position, in place of any that it had.
#[verifier::external_body]
pub(crate) fn entity_index_insert(index: &mut EntityIndex, entity: u64, position: usize)
    ensures
        entity_positions(*final(index)) == entity_positions(*old(index)).insert(entity, position),
{
    index.insert(entity, position);
}

} // verus!
