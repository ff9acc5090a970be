//! Trusted interface to the balanced spatial tree indexing the positions of
//! root-anchored entities.
//!
//! The tree stores points of integer coordinates, each carrying the raw
//! handle of the entity anchored there, and is modeled as the multiset of
//! its (x, y, handle) entries. Coordinates are kept within
//! [`crate::object::COORD_LIMIT`] so the tree's internal area and overlap
//! arithmetic stays far below `i64` overflow; lookups only compare
//! coordinates and accept any query corners.

use vstd::multiset::Multiset;
use vstd::prelude::*;

use crate::object::in_coord_range;

verus! {

/// One entry of the spatial index: a position and the raw handle of the
/// entity anchored there.
pub type SpatialEntry = (i64, i64, u64);

/// The spatial tree over the root-anchored entities. The inner tree's type
/// parameters carry foreign trait bounds the verifier cannot take, so the
/// tree is held opaquely and spoken of through [`spatial_points`].
#[verifier::external_body]
pub struct SpatialIndex {
    inner: rstar::RTree<rstar::primitives::GeomWithData<[i64; 2], u64>>,
}

/// What the spatial index holds: the multiset of its entries.
pub uninterp spec fn spatial_points(t: SpatialIndex) -> Multiset<SpatialEntry>;

/// The multiset holds no entry at all.
pub open spec fn no_points(m: Multiset<SpatialEntry>) -> bool {
    m == Multiset::<SpatialEntry>::empty()
}

/// The entry lies within the axis-aligned box spanned by the two corners
/// (in any corner order, boundary included).
pub open spec fn entry_in_box(p: SpatialEntry, x0: i64, y0: i64, x1: i64, y1: i64) -> bool {
    &&& vstd::math::min(x0 as int, x1 as int) <= p.0 <= vstd::math::max(x0 as int, x1 as int)
    &&& vstd::math::min(y0 as int, y1 as int) <= p.1 <= vstd::math::max(y0 as int, y1 as int)
}

/// The entries of the multiset that lie within the box of the two corners.
pub open spec fn points_in_box(
    m: Multiset<SpatialEntry>,
    x0: i64,
    y0: i64,
    x1: i64,
    y1: i64,
) -> Multiset<SpatialEntry> {
    m.filter(|p: SpatialEntry| entry_in_box(p, x0, y0, x1, y1))
}

/// Relies on RTree::new: a fresh tree holds no entry.
#[verifier::external_body]
pub(crate) fn spatial_new() -> (t: SpatialIndex)
    ensures
        no_points(spatial_points(t)),
{
    SpatialIndex { inner: rstar::RTree::new() }
}

/// Relies on RTree::insert: the tree gains exactly the inserted element;
/// GeomWithData::new pairs the point with the handle. The coordinate bound
/// keeps the insertion heuristics' area and overlap sums within `i64`.
#[verifier::external_body]
pub(crate) fn spatial_insert(t: &mut SpatialIndex, x: i64, y: i64, h: u64)
    requires
        in_coord_range(x as int),
        in_coord_range(y as int),
    ensures
        spatial_points(*final(t)) == spatial_points(*old(t)).insert((x, y, h)),
{
    t.inner.insert(rstar::primitives::GeomWithData::new([x, y], h));
}

/// Relies on RTree::size: the number of stored entries.
#[verifier::external_body]
pub(crate) fn spatial_len(t: &SpatialIndex) -> (r: usize)
    ensures
        r == spatial_points(*t).len(),
{
    t.inner.size()
}

/// Relies on RTree::locate_in_envelope and AABB::from_corners: the lookup
/// hands out, in an order of the tree's choosing, exactly the stored points
/// that lie within the axis-aligned box of the two corners (boundary
/// included); GeomWithData::geom and its data field carry each entry back.
#[verifier::external_body]
pub(crate) fn spatial_locate_box(t: &SpatialIndex, x0: i64, y0: i64, x1: i64, y1: i64) -> (r: Vec<
    SpatialEntry,
>)
    ensures
        r@.to_multiset() == points_in_box(spatial_points(*t), x0, y0, x1, y1),
{
    let envelope = rstar::AABB::from_corners([x0, y0], [x1, y1]);
    let mut out: Vec<SpatialEntry> = Vec::new();
    for g in t.inner.locate_in_envelope(envelope) {
        out.push((g.geom()[0], g.geom()[1], g.data));
    }
    out
}

} // verus!
