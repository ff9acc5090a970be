//! Trusted interface to the generational slot maps holding the entities and
//! their maneuver capabilities.
//!
//! A slot map key is carried through the rest of the crate in its 64-bit
//! form (see [`raw_handle_ok`]): slot index in the low 32 bits, odd
//! generation in the high 32 bits. On that form the key-to-integer
//! conversion is exact in both directions, so the maps can be modeled as
//! plain maps from raw handles to values. This module exposes no removal,
//! so the entity map's slot count always stays at its entry count plus the
//! one sentinel slot it is created with.

use vstd::prelude::*;

use crate::object::Maneuver;
use crate::object::Object;
use crate::object::raw_handle_idx;
use crate::object::raw_handle_ok;
use slotmap::Key;

verus! {

/// The slot map holding every entity of a galaxy. The inner map's key type
/// cannot be declared to the verifier (its `Key` bound is a foreign trait),
/// so the whole map is held opaquely and spoken of through
/// [`store_entries`].
#[verifier::external_body]
pub struct EntitySlots {
    inner: slotmap::SlotMap<slotmap::DefaultKey, Object>,
}

/// The secondary map holding the maneuver capability of some entities,
/// held opaquely for the same reason as [`EntitySlots`] and spoken of
/// through [`maneuver_entries`].
#[verifier::external_body]
pub struct ManeuverSlots {
    inner: slotmap::SparseSecondaryMap<slotmap::DefaultKey, Maneuver>,
}

/// What the entity store holds: each live key, in its 64-bit form, to the
/// entity stored under it.
pub uninterp spec fn store_entries(m: EntitySlots) -> Map<u64, Object>;

/// What the maneuver map holds: each live key, in its 64-bit form, to the
/// maneuver stored under it.
pub uninterp spec fn maneuver_entries(m: ManeuverSlots) -> Map<u64, Maneuver>;

/// The map holds no entity at all.
pub open spec fn no_entities(m: Map<u64, Object>) -> bool {
    m == Map::<u64, Object>::empty()
}

/// The map holds no maneuver at all.
pub open spec fn no_maneuvers(m: Map<u64, Maneuver>) -> bool {
    m == Map::<u64, Maneuver>::empty()
}

/// Relies on SlotMap::with_key: a fresh slot map holds no entry.
#[verifier::external_body]
pub(crate) fn store_new() -> (m: EntitySlots)
    ensures
        no_entities(store_entries(m)),
{
    EntitySlots { inner: slotmap::SlotMap::with_key() }
}

/// Relies on SlotMap::insert: the value lands in a vacant slot, so the new
/// key has an odd generation, an index below the reserved null index, and a
/// slot index no live key shares; KeyData::as_ffi carries the key to its
/// 64-bit form. The slot vector holds one sentinel slot beyond the entries
/// (and no removal happens), so below `u32::MAX - 1` entries the slot count
/// stays below `u32::MAX` and the insert cannot panic.
#[verifier::external_body]
pub(crate) fn store_insert(m: &mut EntitySlots, value: Object) -> (h: u64)
    requires
        store_entries(*old(m)).dom().len() < 0xffff_fffe,
    ensures
        raw_handle_ok(h),
        !store_entries(*old(m)).contains_key(h),
        forall|k: u64|
            store_entries(*old(m)).contains_key(k) ==> raw_handle_idx(k) != raw_handle_idx(h),
        store_entries(*final(m)) == store_entries(*old(m)).insert(h, value),
{
    m.inner.insert(value).data().as_ffi()
}

/// Relies on SlotMap::get: a key resolves to the stored value exactly when
/// its slot holds its generation; KeyData::from_ffi is exact on 64-bit forms
/// with an odd generation.
#[verifier::external_body]
pub(crate) fn store_get(m: &EntitySlots, h: u64) -> (r: Option<&Object>)
    ensures
        store_entries(*m).contains_key(h) ==> r == Some(&store_entries(*m)[h]),
        raw_handle_ok(h) && !store_entries(*m).contains_key(h) ==> r is None,
{
    m.inner.get(slotmap::KeyData::from_ffi(h).into())
}

/// Relies on IndexMut on SlotMap: a live key's slot can be written in
/// place; core::mem::replace swaps the value out. The indexing cannot
/// panic: the key is live.
#[verifier::external_body]
pub(crate) fn store_swap(m: &mut EntitySlots, h: u64, value: Object) -> (r: Object)
    requires
        store_entries(*old(m)).contains_key(h),
    ensures
        r == store_entries(*old(m))[h],
        store_entries(*final(m)) == store_entries(*old(m)).insert(h, value),
{
    core::mem::replace(&mut m.inner[slotmap::KeyData::from_ffi(h).into()], value)
}

/// Relies on SlotMap::len: the number of live entries.
#[verifier::external_body]
pub(crate) fn store_len(m: &EntitySlots) -> (r: usize)
    ensures
        r == store_entries(*m).dom().len(),
{
    m.inner.len()
}

/// Relies on SparseSecondaryMap::new: a fresh secondary map holds no entry.
#[verifier::external_body]
pub(crate) fn maneuvers_new() -> (m: ManeuverSlots)
    ensures
        no_maneuvers(maneuver_entries(m)),
{
    ManeuverSlots { inner: slotmap::SparseSecondaryMap::new() }
}

/// Relies on SparseSecondaryMap::insert: keyed by slot index, storing the
/// key's generation beside the value. When no other key in the map shares
/// the new key's slot index, this is a plain map insertion.
#[verifier::external_body]
pub(crate) fn maneuvers_insert(m: &mut ManeuverSlots, h: u64, value: Maneuver)
    requires
        raw_handle_ok(h),
        forall|k: u64|
            maneuver_entries(*old(m)).contains_key(k) ==> k == h || raw_handle_idx(k)
                != raw_handle_idx(h),
    ensures
        maneuver_entries(*final(m)) == maneuver_entries(*old(m)).insert(h, value),
{
    m.inner.insert(slotmap::KeyData::from_ffi(h).into(), value);
}

/// Relies on SparseSecondaryMap::get: a key resolves to the stored value
/// exactly when its slot entry holds its generation; KeyData::from_ffi is
/// exact on 64-bit forms with an odd generation.
#[verifier::external_body]
pub(crate) fn maneuvers_get(m: &ManeuverSlots, h: u64) -> (r: Option<&Maneuver>)
    ensures
        maneuver_entries(*m).contains_key(h) ==> r == Some(&maneuver_entries(*m)[h]),
        raw_handle_ok(h) && !maneuver_entries(*m).contains_key(h) ==> r is None,
{
    m.inner.get(slotmap::KeyData::from_ffi(h).into())
}

} // verus!
