//! The galaxy: the entity store, the hierarchy of attachments, and the
//! spatial index over the root-anchored entities, kept consistent by the
//! single spawn path.

use vstd::multiset::Multiset;
use vstd::prelude::*;

use crate::object::Body;
use crate::object::Composition;
use crate::object::DEFAULT_MASS;
use crate::object::DEFAULT_NAME;
use crate::object::DEFAULT_RADIUS;
use crate::object::Maneuver;
use crate::object::Object;
use crate::object::ObjectKind;
use crate::object::Relation;
use crate::object::ObjectBuilder;
use crate::object::ObjectHandle;
use crate::object::Parent;
use crate::object::ParentBuilder;
use crate::object::Position;
use crate::object::SpawnError;
use crate::object::builder_count;
use crate::object::builder_list_count;
use crate::object::children_seq;
use crate::object::effective_kind;
use crate::object::effective_mass;
use crate::object::effective_name;
use crate::object::pairs_to_map;
use crate::object::raw_handle_idx;
use crate::object::raw_handle_ok;
use crate::spatial::SpatialEntry;
use crate::spatial::SpatialIndex;
use crate::spatial::entry_in_box;
use crate::spatial::no_points;
use crate::spatial::points_in_box;
use crate::spatial::spatial_insert;
use crate::spatial::spatial_len;
use crate::spatial::spatial_locate_box;
use crate::spatial::spatial_new;
use crate::spatial::spatial_points;
use crate::store::EntitySlots;
use crate::store::ManeuverSlots;
use crate::store::maneuver_entries;
use crate::store::maneuvers_get;
use crate::store::maneuvers_insert;
use crate::store::maneuvers_new;
use crate::store::no_entities;
use crate::store::no_maneuvers;
use crate::store::store_entries;
use crate::store::store_get;
use crate::store::store_insert;
use crate::store::store_len;
use crate::store::store_new;
use crate::store::store_swap;

verus! {

/// The spatial entry a root-anchored entity stands under.
pub open spec fn position_entry(pos: Position, h: u64) -> SpatialEntry {
    (pos@.0 as i64, pos@.1 as i64, h)
}

/// The attachment an entity spawned under the given target gets.
pub open spec fn spawned_parent(parent: ParentBuilder) -> Parent {
    match parent {
        ParentBuilder::Position(pos) => Parent::Position(pos),
        ParentBuilder::Relation(p, rel) => Parent::Relation(p, rel),
    }
}

/// A galaxy: every entity of the universe, each either anchored at an
/// absolute position (and then present in the spatial index) or orbiting
/// another entity (and then recorded in its parent's children map).
pub struct Galaxy {
    spatial: SpatialIndex,
    objects: EntitySlots,
    maneuvers: ManeuverSlots,
    /// The order entities were spawned in: parents rank below children,
    /// which makes every ancestor walk terminate.
    order: Ghost<Map<u64, nat>>,
}

impl Galaxy {
    /// The entities of the galaxy: each live raw handle to its entity.
    pub closed spec fn entities(self) -> Map<u64, Object> {
        store_entries(self.objects)
    }

    /// The maneuver capabilities: each capable entity's raw handle to its
    /// maneuver.
    pub closed spec fn maneuver_map(self) -> Map<u64, Maneuver> {
        maneuver_entries(self.maneuvers)
    }

    /// What the spatial index holds.
    pub closed spec fn spatial_view(self) -> Multiset<SpatialEntry> {
        spatial_points(self.spatial)
    }

    /// The spawn rank of each entity: the entity count at its creation.
    pub closed spec fn rank(self) -> Map<u64, nat> {
        self.order@
    }

    /// The raw handle resolves to a live entity.
    pub open spec fn contains(self, h: u64) -> bool {
        self.entities().contains_key(h)
    }

    /// The raw handles of the root-anchored entities.
    pub open spec fn root_set(self) -> Set<u64> {
        self.entities().dom().filter(|h: u64| self.entities()[h].parent is Position)
    }

    /// Well-formedness: what the spawn path maintains across the whole
    /// galaxy.
    pub open spec fn wf(self) -> bool {
        // the entity count is meaningful
        &&& self.entities().dom().finite()
        // every live handle is well formed
        &&& forall|h: u64| #[trigger] self.contains(h) ==> raw_handle_ok(h)
        // every entity has a spawn rank below the entity count, and only
        // entities have one
        &&& forall|h: u64| #[trigger]
            self.contains(h) ==> self.rank().contains_key(h) && self.rank()[h]
                < self.entities().dom().len()
        &&& forall|h: u64| #[trigger] self.rank().contains_key(h) ==> self.contains(h)
        // an orbit's parent is live, ranks strictly below its child, and
        // records the child under the orbit's relation
        &&& forall|h: u64| #[trigger]
            self.contains(h) ==> match self.entities()[h].parent {
                Parent::Position(_) => true,
                Parent::Relation(p, rel) => self.contains(p@) && self.rank()[p@] < self.rank()[h]
                    && self.entities()[p@].child_map().contains_key(h)
                    && self.entities()[p@].child_map()[h] == rel,
            }
        // every recorded child is live and orbits its recorder under the
        // recorded relation
        &&& forall|p: u64, c: u64|
            self.contains(p) && #[trigger] self.entities()[p].child_map().contains_key(c)
                ==> self.contains(c) && (self.entities()[c].parent matches Parent::Relation(ph, rel)
                && ph@ == p && rel == self.entities()[p].child_map()[c])
        // no entity records the same child twice
        &&& forall|h: u64| #[trigger] self.contains(h) ==> self.entities()[h].children_wf()
        // a root-anchored entity stands in the spatial index exactly once,
        // at its anchor position
        &&& forall|h: u64| #[trigger]
            self.contains(h) ==> match self.entities()[h].parent {
                Parent::Position(pos) => self.spatial_view().count(position_entry(pos, h)) == 1,
                Parent::Relation(_, _) => true,
            }
        // every spatial entry is a live root-anchored entity at that very
        // position
        &&& forall|e: SpatialEntry| #[trigger]
            self.spatial_view().count(e) > 0 ==> self.contains(e.2) && (
            self.entities()[e.2].parent matches Parent::Position(pos) && position_entry(pos, e.2)
                == e)
        // the spatial index holds exactly as many entries as there are
        // root-anchored entities
        &&& self.spatial_view().len() == self.root_set().len()
        // every maneuver belongs to a live entity
        &&& forall|h: u64| #[trigger] self.maneuver_map().contains_key(h) ==> self.contains(h)
    }

    /// Creates an empty galaxy.
    pub fn new() -> (g: Galaxy)
        ensures
            g.wf(),
            no_entities(g.entities()),
            no_maneuvers(g.maneuver_map()),
            no_points(g.spatial_view()),
    {
        let g = Galaxy {
            spatial: spatial_new(),
            objects: store_new(),
            maneuvers: maneuvers_new(),
            order: Ghost(Map::empty()),
        };
        proof {
            broadcast use vstd::multiset::group_multiset_axioms;

            assert(g.entities().dom() =~= Set::<u64>::empty());
            assert(g.root_set() =~= Set::<u64>::empty());
            assert(g.spatial_view().len() == 0);
        }
        g
    }

    /// Looks an entity up; a handle the galaxy did not issue resolves to
    /// nothing, never to a wrong entity.
    pub fn get_object(&self, object_handle: ObjectHandle) -> (r: Option<&Object>)
        ensures
            self.contains(object_handle@) ==> r == Some(&self.entities()[object_handle@]),
            !self.contains(object_handle@) ==> r is None,
    {
        store_get(&self.objects, object_handle.raw())
    }

    /// Looks an entity's maneuver capability up.
    pub fn get_maneuver(&self, object_handle: ObjectHandle) -> (r: Option<&Maneuver>)
        ensures
            self.maneuver_map().contains_key(object_handle@) ==> r == Some(
                &self.maneuver_map()[object_handle@],
            ),
            !self.maneuver_map().contains_key(object_handle@) ==> r is None,
    {
        maneuvers_get(&self.maneuvers, object_handle.raw())
    }

    /// How many entities the spatial index holds: exactly the root-anchored
    /// ones.
    pub fn spatial_count(&self) -> (r: usize)
        requires
            self.wf(),
        ensures
            r == self.spatial_view().len(),
            r == self.root_set().len(),
    {
        spatial_len(&self.spatial)
    }

    /// How many entities the galaxy holds.
    pub fn count(&self) -> (r: usize)
        ensures
            r == self.entities().dom().len(),
    {
        store_len(&self.objects)
    }
}

/// The entity at `h` realizes the builder: it carries the builder's
/// attributes (defaults applied), and its recorded children are, in
/// declaration order, entities realizing the declared child builders.
pub open spec fn tree_matches(g: Galaxy, h: u64, b: ObjectBuilder) -> bool
    decreases b, 0int,
{
    &&& g.contains(h)
    &&& g.rank().contains_key(h)
    &&& g.entities()[h].mass == effective_mass(b)
    &&& g.entities()[h].name == effective_name(b)
    &&& g.entities()[h].kind == effective_kind(b)
    &&& g.entities()[h].children@.len() == children_seq(b).len()
    &&& match b.children {
        Option::None => true,
        Option::Some(v) => list_matches(g, h, v@, 0),
    }
}

/// The entity at `hc` realizes one declared child of the entity at
/// `parent`: the parent records it under the declared relation, it orbits
/// the parent under that relation, it was spawned after the parent, and it
/// realizes the child's builder.
pub open spec fn child_realized(
    g: Galaxy,
    parent: u64,
    hc: u64,
    b: ObjectBuilder,
    rel: Relation,
) -> bool
    decreases b, 1int,
{
    &&& g.entities()[parent].child_map().contains_pair(hc, rel)
    &&& g.entities()[hc].parent matches Parent::Relation(ph, r2) && ph@ == parent && r2 == rel
    &&& g.rank().contains_key(hc)
    &&& g.rank()[parent] < g.rank()[hc]
    &&& tree_matches(g, hc, b)
}

/// The parent's recorded children from position `offset` on realize, in
/// order, the listed child builders.
pub open spec fn list_matches(
    g: Galaxy,
    parent: u64,
    cs: Seq<(ObjectBuilder, Relation)>,
    offset: int,
) -> bool
    decreases cs, 2int,
{
    if cs.len() == 0 {
        true
    } else {
        &&& child_realized(
            g,
            parent,
            g.entities()[parent].children@[offset].0@,
            cs[0].0,
            cs[0].1,
        )
        &&& list_matches(g, parent, cs.drop_first(), offset + 1)
    }
}

/// What a realized tree reads of the galaxy is untouched by a change that
/// only concerns entities of rank `bound` or below: the tree stays
/// realized.
proof fn lemma_tree_frame(g1: Galaxy, g2: Galaxy, h: u64, b: ObjectBuilder, bound: nat)
    requires
        g1.wf(),
        tree_matches(g1, h, b),
        g1.rank()[h] > bound,
        forall|k: u64| #[trigger]
            g1.contains(k) && g1.rank()[k] > bound ==> g2.contains(k) && g2.entities()[k]
                == g1.entities()[k],
        forall|k: u64| #[trigger]
            g1.rank().contains_key(k) ==> g2.rank().contains_key(k) && g2.rank()[k]
                == g1.rank()[k],
    ensures
        tree_matches(g2, h, b),
    decreases b, 0int,
{
    assert(g2.entities()[h] == g1.entities()[h]);
    match b.children {
        Option::None => {},
        Option::Some(v) => {
            lemma_list_frame(g1, g2, h, v@, 0, bound);
        },
    }
}

/// The per-list form of the framing argument: the realized children at the
/// given positions stay realized as long as those positions and the
/// parent's recorded pairs are kept.
proof fn lemma_list_frame(
    g1: Galaxy,
    g2: Galaxy,
    parent: u64,
    cs: Seq<(ObjectBuilder, Relation)>,
    offset: int,
    bound: nat,
)
    requires
        g1.wf(),
        g1.contains(parent),
        list_matches(g1, parent, cs, offset),
        g1.rank()[parent] >= bound,
        0 <= offset,
        offset + cs.len() <= g1.entities()[parent].children@.len(),
        forall|j: int|
            0 <= j < g1.entities()[parent].children@.len() ==> #[trigger] g2.entities()[parent].children@[j]
                == g1.entities()[parent].children@[j],
        forall|k: u64| #[trigger]
            g1.contains(k) && g1.rank()[k] > bound ==> g2.contains(k) && g2.entities()[k]
                == g1.entities()[k],
        forall|k: u64| #[trigger]
            g1.rank().contains_key(k) ==> g2.rank().contains_key(k) && g2.rank()[k]
                == g1.rank()[k],
        forall|hc: u64, r: Relation| #[trigger]
            g1.entities()[parent].child_map().contains_pair(hc, r)
                ==> g2.entities()[parent].child_map().contains_pair(hc, r),
    ensures
        list_matches(g2, parent, cs, offset),
    decreases cs, 1int,
{
    if cs.len() > 0 {
        let w = g1.entities()[parent].children@[offset].0@;
        assert(child_realized(g1, parent, w, cs[0].0, cs[0].1));
        assert(g1.contains(w));
        assert(g1.rank()[w] > bound);
        assert(g2.entities()[w] == g1.entities()[w]);
        lemma_tree_frame(g1, g2, w, cs[0].0, bound);
        assert(g2.entities()[parent].children@[offset].0@ == w);
        assert(child_realized(g2, parent, g2.entities()[parent].children@[offset].0@, cs[0].0, cs[0].1));
        lemma_list_frame(g1, g2, parent, cs.drop_first(), offset + 1, bound);
    }
}

/// Everything a successful spawn guarantees: the returned handle is fresh,
/// the new entity carries the builder's attributes (defaults applied) and
/// the requested attachment, exactly as many children as the builder
/// declared hang below it, every prior entity is untouched (except that an
/// orbit target gains the one child entry), the spatial index gains exactly
/// a root anchor's entry, and prior maneuvers stay while new ones appear
/// only on the new entities.
pub open spec fn spawn_ok(
    pre: Galaxy,
    post: Galaxy,
    object: ObjectBuilder,
    parent: ParentBuilder,
    h: u64,
) -> bool {
    &&& !pre.contains(h)
    &&& post.contains(h)
    &&& raw_handle_ok(h)
    &&& post.entities()[h].mass == effective_mass(object)
    &&& post.entities()[h].name == effective_name(object)
    &&& post.entities()[h].kind == effective_kind(object)
    &&& post.entities()[h].parent == spawned_parent(parent)
    &&& post.entities()[h].children@.len() == children_seq(object).len()
    &&& forall|k: u64| #[trigger] pre.contains(k) ==> post.contains(k)
    &&& post.entities().dom().len() == pre.entities().dom().len() + builder_count(object)
    &&& match parent {
        ParentBuilder::Position(pos) => {
            &&& forall|k: u64| #[trigger]
                pre.contains(k) ==> post.entities()[k] == pre.entities()[k]
            &&& post.spatial_view() == pre.spatial_view().insert(position_entry(pos, h))
        },
        ParentBuilder::Relation(p, rel) => {
            &&& forall|k: u64| #[trigger]
                pre.contains(k) && k != p@ ==> post.entities()[k] == pre.entities()[k]
            &&& post.entities()[p@].same_except_children(pre.entities()[p@])
            &&& post.entities()[p@].child_map() == pre.entities()[p@].child_map().insert(h, rel)
            &&& post.entities()[p@].children@.drop_last() == pre.entities()[p@].children@
            &&& post.entities()[p@].children@.len() == pre.entities()[p@].children@.len() + 1
            &&& post.entities()[p@].children@.last().0@ == h
            &&& post.entities()[p@].children@.last().1 == rel
            &&& post.spatial_view() == pre.spatial_view()
        },
    }
    &&& (object.maneuver matches Some(mv) ==> post.maneuver_map().contains_key(h)
        && post.maneuver_map()[h] == mv)
    &&& (object.maneuver is None ==> !post.maneuver_map().contains_key(h))
    &&& forall|k: u64| #[trigger]
        pre.maneuver_map().contains_key(k) ==> post.maneuver_map().contains_key(k)
            && post.maneuver_map()[k] == pre.maneuver_map()[k]
    &&& forall|k: u64| #[trigger]
        post.maneuver_map().contains_key(k) ==> pre.maneuver_map().contains_key(k)
            || !pre.contains(k)
    &&& forall|k: u64| #[trigger]
        pre.rank().contains_key(k) ==> post.rank().contains_key(k) && post.rank()[k]
            == pre.rank()[k]
    &&& tree_matches(post, h, object)
}

/// The ancestor walk from the entity: the handles visited following orbit
/// attachments toward the root anchor, nearest parent first, cut off after
/// `fuel` steps.
pub open spec fn parent_walk(m: Map<u64, Object>, h: u64, fuel: nat) -> Seq<u64>
    decreases fuel,
{
    if fuel == 0 {
        Seq::empty()
    } else {
        match m[h].parent {
            Parent::Position(_) => Seq::empty(),
            Parent::Relation(p, _) => seq![p@] + parent_walk(m, p@, (fuel - 1) as nat),
        }
    }
}

/// Following orbit attachments from the entity reaches a root anchor within
/// `fuel` steps.
pub open spec fn walk_reaches_root(m: Map<u64, Object>, h: u64, fuel: nat) -> bool
    decreases fuel,
{
    if fuel == 0 {
        false
    } else {
        m.contains_key(h) && match m[h].parent {
            Parent::Position(_) => true,
            Parent::Relation(p, _) => walk_reaches_root(m, p@, (fuel - 1) as nat),
        }
    }
}

/// The raw handles of a handle sequence.
pub open spec fn handles_view(s: Seq<ObjectHandle>) -> Seq<u64> {
    s.map_values(|oh: ObjectHandle| oh@)
}

/// In a well-formed galaxy the ancestor walk of a live entity is the same
/// under every sufficient fuel, visits only live entities, is no longer
/// than the entity's spawn rank, and ends at a root anchor.
proof fn lemma_parent_walk(g: Galaxy, h: u64, fuel: nat)
    requires
        g.wf(),
        g.contains(h),
        fuel > g.rank()[h],
    ensures
        walk_reaches_root(g.entities(), h, fuel),
        parent_walk(g.entities(), h, fuel).len() <= g.rank()[h],
        forall|f2: nat|
            f2 > g.rank()[h] ==> #[trigger] parent_walk(g.entities(), h, f2) == parent_walk(
                g.entities(),
                h,
                fuel,
            ),
        forall|i: int|
            0 <= i < parent_walk(g.entities(), h, fuel).len() ==> g.contains(
                #[trigger] parent_walk(g.entities(), h, fuel)[i],
            ),
    decreases g.rank()[h],
{
    let e = g.entities();
    match e[h].parent {
        Parent::Position(_) => {
            assert forall|f2: nat| f2 > g.rank()[h] implies #[trigger] parent_walk(e, h, f2)
                == parent_walk(e, h, fuel) by {
                assert(parent_walk(e, h, f2) =~= Seq::<u64>::empty());
                assert(parent_walk(e, h, fuel) =~= Seq::<u64>::empty());
            }
        },
        Parent::Relation(p, _) => {
            assert(g.contains(p@) && g.rank()[p@] < g.rank()[h]);
            lemma_parent_walk(g, p@, (fuel - 1) as nat);
            let tail = parent_walk(e, p@, (fuel - 1) as nat);
            assert(parent_walk(e, h, fuel) == seq![p@] + tail);
            assert forall|f2: nat| f2 > g.rank()[h] implies #[trigger] parent_walk(e, h, f2)
                == parent_walk(e, h, fuel) by {
                assert(parent_walk(e, h, f2) == seq![p@] + parent_walk(e, p@, (f2 - 1) as nat));
                assert(parent_walk(e, p@, (f2 - 1) as nat) == tail);
            }
            assert forall|i: int| 0 <= i < parent_walk(e, h, fuel).len() implies g.contains(
                #[trigger] parent_walk(e, h, fuel)[i],
            ) by {
                if i == 0 {
                    assert(parent_walk(e, h, fuel)[0] == p@);
                } else {
                    assert(parent_walk(e, h, fuel)[i] == tail[i - 1]);
                }
            }
        },
    }
}

impl Galaxy {
    /// The breadcrumb chain of the entity: its ancestors, from the one
    /// nearest the root anchor down to its direct parent, the entity itself
    /// excluded.
    pub open spec fn chain_of(self, h: u64) -> Seq<u64> {
        parent_walk(self.entities(), h, self.entities().dom().len()).reverse()
    }

    /// The depth of the entity: how many ancestors stand above it.
    pub open spec fn depth_of(self, h: u64) -> nat {
        parent_walk(self.entities(), h, self.entities().dom().len()).len()
    }

    /// Resolves the breadcrumb chain of a live entity: every ancestor from
    /// the one nearest the root anchor down to the direct parent. A
    /// root-anchored focus has an empty chain.
    pub fn resolve_chain(&self, focus: ObjectHandle) -> (r: Vec<ObjectHandle>)
        requires
            self.wf(),
            self.contains(focus@),
        ensures
            handles_view(r@) == self.chain_of(focus@),
            r@.len() == self.depth_of(focus@),
            forall|i: int| 0 <= i < r@.len() ==> self.contains(#[trigger] r@[i]@),
    {
        let ghost e = self.entities();
        let ghost fuel = self.entities().dom().len();
        let mut walk: Vec<ObjectHandle> = Vec::new();
        let mut current = focus;
        proof {
            lemma_parent_walk(*self, focus@, fuel);
        }
        loop
            invariant_except_break
                self.wf(),
                self.contains(current@),
                fuel == self.entities().dom().len(),
                e == self.entities(),
                parent_walk(e, focus@, fuel) == handles_view(walk@) + parent_walk(
                    e,
                    current@,
                    fuel,
                ),
                forall|i: int| 0 <= i < walk@.len() ==> self.contains(#[trigger] walk@[i]@),
            ensures
                parent_walk(e, focus@, fuel) == handles_view(walk@),
                forall|i: int| 0 <= i < walk@.len() ==> self.contains(#[trigger] walk@[i]@),
            decreases self.rank()[current@],
        {
            let obj = match self.get_object(current) {
                Some(o) => o,
                None => vstd::pervasive::unreached(),
            };
            match obj.parent {
                Parent::Position(_) => {
                    proof {
                        assert(parent_walk(e, current@, fuel) =~= Seq::<u64>::empty());
                        assert(handles_view(walk@) + parent_walk(e, current@, fuel)
                            =~= handles_view(walk@));
                    }
                    break ;
                },
                Parent::Relation(p, _) => {
                    proof {
                        lemma_parent_walk(*self, current@, fuel);
                        lemma_parent_walk(*self, p@, fuel);
                        assert(parent_walk(e, current@, fuel) == seq![p@] + parent_walk(
                            e,
                            p@,
                            (fuel - 1) as nat,
                        ));
                        assert(parent_walk(e, p@, (fuel - 1) as nat) == parent_walk(e, p@, fuel));
                        assert(handles_view(walk@.push(p)) =~= handles_view(walk@) + seq![p@]);
                        assert(handles_view(walk@) + parent_walk(e, current@, fuel)
                            =~= handles_view(walk@.push(p)) + parent_walk(e, p@, fuel));
                    }
                    walk.push(p);
                    current = p;
                },
            }
        }
        let mut chain: Vec<ObjectHandle> = Vec::new();
        let mut i: usize = walk.len();
        while i > 0
            invariant
                i <= walk@.len(),
                chain@.len() == walk@.len() - i,
                forall|j: int|
                    0 <= j < chain@.len() ==> #[trigger] chain@[j] == walk@[walk@.len() - 1 - j],
            decreases i,
        {
            i = i - 1;
            chain.push(walk[i]);
        }
        proof {
            assert(handles_view(chain@) =~= handles_view(walk@).reverse());
            assert(handles_view(chain@) == self.chain_of(focus@));
            assert forall|j: int| 0 <= j < chain@.len() implies self.contains(
                #[trigger] chain@[j]@,
            ) by {
                assert(chain@[j] == walk@[walk@.len() - 1 - j]);
            }
        }
        chain
    }
}

/// Acyclicity: from any live entity, following orbit attachments reaches a
/// root anchor in at most as many steps as there are entities.
pub proof fn lemma_acyclic(g: Galaxy, h: u64)
    requires
        g.wf(),
        g.contains(h),
    ensures
        walk_reaches_root(g.entities(), h, g.entities().dom().len()),
        g.depth_of(h) < g.entities().dom().len(),
{
    lemma_parent_walk(g, h, g.entities().dom().len());
}

/// Depth steps with attachment: a root-anchored entity has depth zero, and
/// an orbiting entity lies one step deeper than its parent.
pub proof fn lemma_depth_step(g: Galaxy, h: u64)
    requires
        g.wf(),
        g.contains(h),
    ensures
        g.entities()[h].parent is Position ==> g.depth_of(h) == 0,
        (g.entities()[h].parent matches Parent::Relation(p, _) ==> g.depth_of(h) == g.depth_of(p@)
            + 1),
{
    let e = g.entities();
    let fuel = e.dom().len();
    lemma_parent_walk(g, h, fuel);
    match e[h].parent {
        Parent::Position(_) => {
            assert(parent_walk(e, h, fuel) =~= Seq::<u64>::empty());
        },
        Parent::Relation(p, _) => {
            lemma_parent_walk(g, p@, fuel);
            assert(parent_walk(e, h, fuel) == seq![p@] + parent_walk(e, p@, (fuel - 1) as nat));
            assert(parent_walk(e, p@, (fuel - 1) as nat) == parent_walk(e, p@, fuel));
        },
    }
}

/// Chain reversal: the resolved chain, reversed, is the ancestor walk from
/// the focus toward the root, and the chain is exactly as long as the focus
/// is deep.
pub proof fn lemma_chain_reversal(g: Galaxy, h: u64)
    requires
        g.wf(),
        g.contains(h),
    ensures
        g.chain_of(h).reverse() == parent_walk(g.entities(), h, g.entities().dom().len()),
        g.chain_of(h).len() == g.depth_of(h),
{
    let w = parent_walk(g.entities(), h, g.entities().dom().len());
    assert(w.reverse().reverse() =~= w);
}

/// Attachment duality: an orbiting entity is recorded on its parent and on
/// no other entity; a root-anchored entity is recorded on no entity and
/// stands in the spatial index exactly once, at its anchor; and the spatial
/// index holds exactly one entry per root-anchored entity.
pub proof fn lemma_attachment_duality(g: Galaxy)
    requires
        g.wf(),
    ensures
        forall|h: u64| #[trigger]
            g.contains(h) ==> (g.entities()[h].parent matches Parent::Relation(p, rel)
                ==> g.contains(p@) && g.entities()[p@].child_map().contains_key(h)
                && g.entities()[p@].child_map()[h] == rel),
        forall|q: u64, h: u64|
            g.contains(q) && #[trigger] g.entities()[q].child_map().contains_key(h) ==> g.contains(
                h,
            ) && (g.entities()[h].parent matches Parent::Relation(p, _) && p@ == q),
        forall|h: u64| #[trigger]
            g.contains(h) ==> (g.entities()[h].parent matches Parent::Position(pos)
                ==> g.spatial_view().count(position_entry(pos, h)) == 1),
        g.spatial_view().len() == g.root_set().len(),
{
}

impl Galaxy {
    /// The root-anchored entities inside the axis-aligned box spanned by
    /// the two corners (in any corner order, boundary included): each of
    /// them exactly once, in an order of the spatial index's choosing.
    pub fn objects_in_box(&self, corner_a: Position, corner_b: Position) -> (r: Vec<ObjectHandle>)
        requires
            self.wf(),
        ensures
            forall|i: int|
                0 <= i < r@.len() ==> self.contains(#[trigger] r@[i]@) && (
                self.entities()[r@[i]@].parent matches Parent::Position(pos) && entry_in_box(
                    position_entry(pos, r@[i]@),
                    corner_a@.0 as i64,
                    corner_a@.1 as i64,
                    corner_b@.0 as i64,
                    corner_b@.1 as i64,
                )),
            forall|h: u64| #[trigger]
                self.contains(h) ==> ((self.entities()[h].parent matches Parent::Position(pos)
                    && entry_in_box(
                    position_entry(pos, h),
                    corner_a@.0 as i64,
                    corner_a@.1 as i64,
                    corner_b@.0 as i64,
                    corner_b@.1 as i64,
                )) ==> handles_view(r@).contains(h)),
            handles_view(r@).no_duplicates(),
    {
        let ax = corner_a.x();
        let ay = corner_a.y();
        let bx = corner_b.x();
        let by = corner_b.y();
        let points = spatial_locate_box(&self.spatial, ax, ay, bx, by);
        proof {
            broadcast use vstd::multiset::group_multiset_axioms;
            broadcast use vstd::seq_lib::group_to_multiset_ensures;

            // the index never repeats an entry, so neither does the lookup
            assert forall|x: SpatialEntry|
                points@.to_multiset().contains(x) implies points@.to_multiset().count(x) == 1 by {
                assert(self.spatial_view().count(x) > 0);
                assert(self.contains(x.2));
            }
            points@.lemma_multiset_has_no_duplicates_conv();
        }
        let mut out: Vec<ObjectHandle> = Vec::new();
        let mut i: usize = 0;
        while i < points.len()
            invariant
                self.wf(),
                i <= points@.len(),
                out@.len() == i,
                points@.to_multiset() == points_in_box(
                    self.spatial_view(),
                    ax as i64,
                    ay as i64,
                    bx as i64,
                    by as i64,
                ),
                forall|j: int| 0 <= j < i ==> (#[trigger] out@[j])@ == points@[j].2,
            decreases points@.len() - i,
        {
            proof {
                broadcast use vstd::multiset::group_multiset_axioms;
                broadcast use vstd::seq_lib::group_to_multiset_ensures;

                assert(points@.contains(points@[i as int]));
                assert(points@.to_multiset().count(points@[i as int]) > 0);
                assert(self.spatial_view().count(points@[i as int]) > 0);
                assert(self.contains(points@[i as int].2));
            }
            let entry = points[i];
            out.push(ObjectHandle::from_raw(entry.2));
            i = i + 1;
        }
        proof {
            broadcast use vstd::multiset::group_multiset_axioms;
            broadcast use vstd::seq_lib::group_to_multiset_ensures;

            let qx0 = corner_a@.0 as i64;
            let qy0 = corner_a@.1 as i64;
            let qx1 = corner_b@.0 as i64;
            let qy1 = corner_b@.1 as i64;
            // every returned handle is a live root anchor inside the box
            assert forall|j: int| 0 <= j < out@.len() implies self.contains(#[trigger] out@[j]@)
                && (self.entities()[out@[j]@].parent matches Parent::Position(pos) && entry_in_box(
                position_entry(pos, out@[j]@),
                qx0,
                qy0,
                qx1,
                qy1,
            )) by {
                let e = points@[j];
                assert(points@.contains(e));
                assert(points@.to_multiset().count(e) > 0);
                assert(self.spatial_view().count(e) > 0);
                assert(entry_in_box(e, ax, ay, bx, by));
            }
            // every live root anchor inside the box is returned
            assert forall|h: u64| #[trigger]
                self.contains(h) && (self.entities()[h].parent matches Parent::Position(pos)
                    && entry_in_box(position_entry(pos, h), qx0, qy0, qx1, qy1)) implies handles_view(
                out@,
            ).contains(h) by {
                if let Parent::Position(pos) = self.entities()[h].parent {
                    let e = position_entry(pos, h);
                    assert(self.spatial_view().count(e) == 1);
                    assert(points@.to_multiset().count(e) == 1);
                    assert(points@.contains(e));
                    let j = choose|j: int| 0 <= j < points@.len() && points@[j] == e;
                    assert(out@[j]@ == h);
                    assert(handles_view(out@)[j] == h);
                }
            }
            // and each exactly once
            assert forall|a: int, b2: int|
                0 <= a < b2 < out@.len() implies (#[trigger] out@[a])@ != (
            #[trigger] out@[b2])@ by {
                let ea = points@[a];
                let eb = points@[b2];
                if out@[a]@ == out@[b2]@ {
                    assert(points@.contains(ea));
                    assert(points@.contains(eb));
                    assert(points@.to_multiset().count(ea) > 0);
                    assert(points@.to_multiset().count(eb) > 0);
                    assert(self.spatial_view().count(ea) > 0);
                    assert(self.spatial_view().count(eb) > 0);
                    assert(ea.2 == eb.2);
                    assert(ea == eb);
                    assert(!points@.no_duplicates());
                    assert(false);
                }
            }
            assert(handles_view(out@).no_duplicates());
        }
        out
    }
}

/// The builder without its nested children: what the entity itself is made
/// from.
pub open spec fn without_children(b: ObjectBuilder) -> ObjectBuilder {
    ObjectBuilder { children: None, ..b }
}

/// Everything spawning a list of children below a live parent guarantees:
/// the galaxy stays well formed, exactly the list's entities are added,
/// every prior entity but the parent is untouched, the parent changes only
/// by gaining one child entry per list element, and the spatial index and
/// prior maneuvers stay as they were.
pub open spec fn children_spawned(
    pre: Galaxy,
    post: Galaxy,
    parent: u64,
    list: Seq<(ObjectBuilder, Relation)>,
) -> bool {
    &&& post.wf()
    &&& forall|k: u64| #[trigger] pre.contains(k) ==> post.contains(k)
    &&& post.entities().dom().len() == pre.entities().dom().len() + builder_list_count(list)
    &&& forall|k: u64| #[trigger]
        pre.contains(k) && k != parent ==> post.entities()[k] == pre.entities()[k]
    &&& post.entities()[parent].same_except_children(pre.entities()[parent])
    &&& post.entities()[parent].children@.len() == pre.entities()[parent].children@.len()
        + list.len()
    &&& forall|c: u64| #[trigger]
        pre.entities()[parent].child_map().contains_key(c)
            ==> post.entities()[parent].child_map().contains_key(c)
            && post.entities()[parent].child_map()[c] == pre.entities()[parent].child_map()[c]
    &&& forall|c: u64| #[trigger]
        post.entities()[parent].child_map().contains_key(c)
            ==> pre.entities()[parent].child_map().contains_key(c) || !pre.contains(c)
    &&& post.spatial_view() == pre.spatial_view()
    &&& forall|k: u64| #[trigger]
        pre.maneuver_map().contains_key(k) ==> post.maneuver_map().contains_key(k)
            && post.maneuver_map()[k] == pre.maneuver_map()[k]
    &&& forall|k: u64| #[trigger]
        post.maneuver_map().contains_key(k) ==> pre.maneuver_map().contains_key(k)
            || !pre.contains(k)
    &&& forall|k: u64| #[trigger]
        pre.rank().contains_key(k) ==> post.rank().contains_key(k) && post.rank()[k]
            == pre.rank()[k]
    &&& post.entities()[parent].children@.subrange(
        0,
        pre.entities()[parent].children@.len() as int,
    ) == pre.entities()[parent].children@
    &&& list_matches(post, parent, list, pre.entities()[parent].children@.len() as int)
}

/// After storing one fresh entity (its attachment applied to the spatial
/// index or to the parent's children map, its maneuver recorded, its spawn
/// rank set to the prior entity count), the galaxy is well formed again and
/// the one-entity spawn contract holds.
#[verifier::rlimit(100)]
proof fn lemma_spawn_entity_wf(
    g0: Galaxy,
    g1: Galaxy,
    b: ObjectBuilder,
    parent: ParentBuilder,
    h: u64,
    obj: Object,
)
    requires
        g0.wf(),
        !g0.contains(h),
        raw_handle_ok(h),
        obj.parent == spawned_parent(parent),
        obj.children@.len() == 0,
        obj.mass == effective_mass(b),
        obj.name == effective_name(b),
        obj.kind == effective_kind(b),
        (parent matches ParentBuilder::Relation(p, _) ==> g0.contains(p@)),
        g1.rank() == g0.rank().insert(h, g0.entities().dom().len()),
        (parent matches ParentBuilder::Position(pos) ==> g1.entities() == g0.entities().insert(
            h,
            obj,
        ) && g1.spatial_view() == g0.spatial_view().insert(position_entry(pos, h))),
        (parent matches ParentBuilder::Relation(p, rel) ==> {
            &&& g1.entities() == g0.entities().insert(h, obj).insert(p@, g1.entities()[p@])
            &&& g1.entities()[p@].same_except_children(g0.entities()[p@])
            &&& g1.entities()[p@].child_map() == g0.entities()[p@].child_map().insert(h, rel)
            &&& g1.entities()[p@].children_wf()
            &&& g1.entities()[p@].children@.drop_last() == g0.entities()[p@].children@
            &&& g1.entities()[p@].children@.len() == g0.entities()[p@].children@.len() + 1
            &&& g1.entities()[p@].children@.last().0@ == h
            &&& g1.entities()[p@].children@.last().1 == rel
            &&& g1.spatial_view() == g0.spatial_view()
        }),
        (b.maneuver matches Some(mv) ==> g1.maneuver_map() == g0.maneuver_map().insert(h, mv)),
        (b.maneuver is None ==> g1.maneuver_map() == g0.maneuver_map()),
    ensures
        g1.wf(),
        spawn_ok(g0, g1, without_children(b), parent, h),
{
    broadcast use vstd::multiset::group_multiset_axioms;
    broadcast use vstd::multiset::group_multiset_properties;

    let e0 = g0.entities();
    let e1 = g1.entities();
    let n0 = e0.dom().len();
    assert(e1.dom() =~= e0.dom().insert(h));
    assert(e1.dom().len() == n0 + 1);
    assert(pairs_to_map(obj.children@) =~= Map::<u64, Relation>::empty());
    // the orbit target, when there is one, is not the fresh entity
    let ghost pr: u64 = match parent {
        ParentBuilder::Relation(p, _) => p@,
        ParentBuilder::Position(_) => h,
    };
    // ranks of prior entities are untouched and stay below the new count
    assert forall|k: u64| #[trigger] g1.contains(k) implies g1.rank().contains_key(k)
        && g1.rank()[k] < e1.dom().len() by {
        if k != h {
            assert(g0.contains(k));
        }
    }
    // parent pointers still resolve, rank strictly below, child recorded
    assert forall|k: u64| #[trigger] g1.contains(k) implies match e1[k].parent {
        Parent::Position(_) => true,
        Parent::Relation(p, rel) => g1.contains(p@) && g1.rank()[p@] < g1.rank()[k]
            && e1[p@].child_map().contains_key(k) && e1[p@].child_map()[k] == rel,
    } by {
        if k == h {
            if let ParentBuilder::Relation(p, rel) = parent {
                assert(e1[p@].child_map().contains_key(h));
                assert(e1[p@].child_map()[h] == rel);
                assert(g0.rank()[p@] < n0);
            }
        } else {
            assert(g0.contains(k));
            if let Parent::Relation(q, rel) = e0[k].parent {
                assert(g0.contains(q@));
                assert(e0[q@].child_map().contains_key(k));
                if q@ == pr && pr != h {
                    if let ParentBuilder::Relation(p, prel) = parent {
                        assert(e1[q@].child_map() == e0[q@].child_map().insert(h, prel));
                        assert(e1[q@].child_map().contains_key(k));
                    }
                } else {
                    assert(e1[q@] == e0[q@]);
                }
            }
        }
    }
    // every recorded child still points back at its recorder
    assert forall|p: u64, c: u64|
        g1.contains(p) && #[trigger] e1[p].child_map().contains_key(c) implies g1.contains(c) && (
    e1[c].parent matches Parent::Relation(ph, rel) && ph@ == p && rel
        == e1[p].child_map()[c]) by {
        if p == h {
            assert(e1[h].child_map() =~= Map::<u64, Relation>::empty());
            assert(false);
        } else {
            assert(g0.contains(p));
            if p == pr {
                if let ParentBuilder::Relation(pp, prel) = parent {
                    assert(e1[p].child_map() == e0[p].child_map().insert(h, prel));
                    if c == h {
                        assert(e1[h].parent == spawned_parent(parent));
                    } else {
                        assert(e0[p].child_map().contains_key(c));
                        assert(g0.contains(c));
                        assert(e0[c].parent matches Parent::Relation(q, _) && q@ == p);
                        assert(g0.rank()[p] < g0.rank()[c]);
                        assert(c != p);
                        assert(e1[c] == e0[c]);
                    }
                }
            } else {
                assert(e1[p] == e0[p]);
                assert(e0[p].child_map().contains_key(c));
                assert(g0.contains(c));
                assert(c != h);
                assert(e0[c].parent matches Parent::Relation(q, _) && q@ == p);
                assert(g0.rank()[p] < g0.rank()[c]);
                assert(c != p);
                if c == pr {
                    if let ParentBuilder::Relation(pp, prel) = parent {
                        assert(e1[c].parent == e0[c].parent);
                    }
                } else {
                    assert(e1[c] == e0[c]);
                }
            }
        }
    }
    // the spatial index stays in step with the root anchors
    match parent {
        ParentBuilder::Position(pos) => {
            let entry = position_entry(pos, h);
            assert(g0.spatial_view().count(entry) == 0) by {
                if g0.spatial_view().count(entry) > 0 {
                    assert(g0.contains(entry.2));
                }
            }
            assert forall|k: u64| #[trigger] g1.contains(k) implies match e1[k].parent {
                Parent::Position(q) => g1.spatial_view().count(position_entry(q, k)) == 1,
                Parent::Relation(_, _) => true,
            } by {
                if k != h {
                    assert(g0.contains(k));
                    assert(e1[k] == e0[k]);
                    if let Parent::Position(q) = e0[k].parent {
                        assert(position_entry(q, k) != entry);
                    }
                }
            }
            assert forall|e: SpatialEntry| #[trigger]
                g1.spatial_view().count(e) > 0 implies g1.contains(e.2) && (
            e1[e.2].parent matches Parent::Position(q) && position_entry(q, e.2) == e) by {
                if e != entry {
                    assert(g0.spatial_view().count(e) > 0);
                    assert(g0.contains(e.2));
                    assert(e1[e.2] == e0[e.2]);
                }
            }
            assert(g1.root_set() =~= g0.root_set().insert(h));
            assert(g1.spatial_view().len() == g0.spatial_view().len() + 1);
        },
        ParentBuilder::Relation(p, rel) => {
            assert forall|k: u64| #[trigger] g1.contains(k) implies match e1[k].parent {
                Parent::Position(q) => g1.spatial_view().count(position_entry(q, k)) == 1,
                Parent::Relation(_, _) => true,
            } by {
                if k != h {
                    assert(g0.contains(k));
                    if k == p@ {
                        assert(e1[k].parent == e0[k].parent);
                    } else {
                        assert(e1[k] == e0[k]);
                    }
                }
            }
            assert forall|e: SpatialEntry| #[trigger]
                g1.spatial_view().count(e) > 0 implies g1.contains(e.2) && (
            e1[e.2].parent matches Parent::Position(q) && position_entry(q, e.2) == e) by {
                assert(g0.spatial_view().count(e) > 0);
                assert(g0.contains(e.2));
                if e.2 == p@ {
                    assert(e1[e.2].parent == e0[e.2].parent);
                } else {
                    assert(e1[e.2] == e0[e.2]);
                }
            }
            assert(g1.root_set() =~= g0.root_set());
        },
    }
    // maneuvers still belong to live entities
    assert forall|k: u64| #[trigger] g1.maneuver_map().contains_key(k) implies g1.contains(k) by {
        if k != h {
            assert(g0.maneuver_map().contains_key(k));
        }
    }
    // only entities have a rank
    assert forall|k: u64| #[trigger] g1.rank().contains_key(k) implies g1.contains(k) by {
        if k != h {
            assert(g0.rank().contains_key(k));
            assert(g0.contains(k));
        }
    }
    assert(g1.wf());
    // and the one-entity spawn contract holds
    let bb = without_children(b);
    assert(builder_count(bb) == 1);
    assert(children_seq(bb).len() == 0);
    assert forall|k: u64| #[trigger] g0.rank().contains_key(k) implies g1.rank().contains_key(k)
        && g1.rank()[k] == g0.rank()[k] by {
        assert(g0.contains(k));
    }
    assert(tree_matches(g1, h, bb));
}

/// Spawning an entity and then its children below it amounts to the whole
/// spawn contract for the full builder.
proof fn lemma_spawn_assemble(
    g0: Galaxy,
    g1: Galaxy,
    g2: Galaxy,
    b: ObjectBuilder,
    parent: ParentBuilder,
    h: u64,
)
    requires
        g0.wf(),
        (parent matches ParentBuilder::Relation(p, _) ==> g0.contains(p@)),
        spawn_ok(g0, g1, without_children(b), parent, h),
        children_spawned(g1, g2, h, children_seq(b)),
    ensures
        spawn_ok(g0, g2, b, parent, h),
{
    let bb = without_children(b);
    assert(builder_count(bb) == 1);
    assert(children_seq(bb).len() == 0);
    assert(builder_count(b) == 1 + builder_list_count(children_seq(b))) by {
        if b.children is None {
            assert(builder_list_count(children_seq(b)) == 0);
        }
    }
    assert(g2.entities()[h].children@.len() == children_seq(b).len());
    assert forall|k: u64| #[trigger] g0.contains(k) implies g2.contains(k) by {
        assert(g1.contains(k));
    }
    match parent {
        ParentBuilder::Position(pos) => {
            assert forall|k: u64| #[trigger] g0.contains(k) implies g2.entities()[k]
                == g0.entities()[k] by {
                assert(g1.contains(k));
                assert(k != h);
                assert(g1.entities()[k] == g0.entities()[k]);
            }
        },
        ParentBuilder::Relation(p, rel) => {
            assert(p@ != h);
            assert(g2.entities()[p@] == g1.entities()[p@]);
            assert forall|k: u64| #[trigger] g0.contains(k) && k != p@ implies g2.entities()[k]
                == g0.entities()[k] by {
                assert(g1.contains(k));
                assert(k != h);
            }
        },
    }
    // maneuvers: the new entity's capability survives the child spawns, and
    // no child spawn put one on the new entity
    if let Some(mv) = b.maneuver {
        assert(g1.maneuver_map().contains_key(h));
    } else {
        if g2.maneuver_map().contains_key(h) {
            assert(g1.maneuver_map().contains_key(h) || !g1.contains(h));
            assert(false);
        }
    }
    assert forall|k: u64| #[trigger] g2.maneuver_map().contains_key(k) implies g0.maneuver_map().contains_key(
        k,
    ) || !g0.contains(k) by {
        if g1.maneuver_map().contains_key(k) {
        } else {
            assert(!g1.contains(k));
            assert(!g0.contains(k));
        }
    }
    // ranks of prior entities survive both stages
    assert forall|k: u64| #[trigger] g0.rank().contains_key(k) implies g2.rank().contains_key(k)
        && g2.rank()[k] == g0.rank()[k] by {
        assert(g1.rank().contains_key(k) && g1.rank()[k] == g0.rank()[k]);
    }
    // the new entity realizes the whole builder: its own attributes stood
    // already, and the child spawns realized the declared children
    assert(g2.entities()[h].same_except_children(g1.entities()[h]));
    assert(tree_matches(g2, h, b)) by {
        assert(g2.contains(h));
        assert(g1.rank().contains_key(h));
        assert(g2.entities()[h].children@.len() == children_seq(b).len());
        match b.children {
            Option::None => {},
            Option::Some(v) => {
                assert(children_seq(b) == v@);
                assert(g1.entities()[h].children@.len() == 0);
                assert(list_matches(g2, h, v@, 0));
            },
        }
    }
    assert(spawn_ok(g0, g2, b, parent, h));
}

/// Spawning the first listed child and then the rest of the list amounts to
/// spawning the whole list.
proof fn lemma_spawn_children_stitch(
    g0: Galaxy,
    g1: Galaxy,
    g2: Galaxy,
    oh: ObjectHandle,
    hc: u64,
    s: Seq<(ObjectBuilder, Relation)>,
)
    requires
        g0.wf(),
        g1.wf(),
        g0.contains(oh@),
        s.len() > 0,
        spawn_ok(g0, g1, s[0].0, ParentBuilder::Relation(oh, s[0].1), hc),
        children_spawned(g1, g2, oh@, s.drop_first()),
    ensures
        children_spawned(g0, g2, oh@, s),
{
    let rest = s.drop_first();
    assert(builder_list_count(s) == builder_count(s[0].0) + builder_list_count(rest));
    assert forall|k: u64| #[trigger] g0.contains(k) implies g2.contains(k) by {
        assert(g1.contains(k));
    }
    assert forall|k: u64| #[trigger] g0.contains(k) && k != oh@ implies g2.entities()[k]
        == g0.entities()[k] by {
        assert(g1.contains(k));
        assert(k != hc);
        assert(g1.entities()[k] == g0.entities()[k]);
    }
    let cm0 = g0.entities()[oh@].child_map();
    let cm1 = g1.entities()[oh@].child_map();
    let cm2 = g2.entities()[oh@].child_map();
    assert(cm1 == cm0.insert(hc, s[0].1));
    assert forall|c: u64| #[trigger] cm0.contains_key(c) implies cm2.contains_key(c) && cm2[c]
        == cm0[c] by {
        assert(g0.contains(c));
        assert(c != hc);
        assert(cm1.contains_key(c) && cm1[c] == cm0[c]);
    }
    assert forall|c: u64| #[trigger] cm2.contains_key(c) implies cm0.contains_key(c)
        || !g0.contains(c) by {
        if cm1.contains_key(c) {
            if c != hc {
                assert(cm0.contains_key(c));
            } else {
                assert(!g0.contains(hc));
            }
        } else {
            assert(!g1.contains(c));
            assert(!g0.contains(c));
        }
    }
    assert forall|k: u64| #[trigger] g2.maneuver_map().contains_key(k) implies g0.maneuver_map().contains_key(
        k,
    ) || !g0.contains(k) by {
        if g1.maneuver_map().contains_key(k) {
        } else {
            assert(!g1.contains(k));
        }
    }
    // ranks of prior entities survive both stages
    assert forall|k: u64| #[trigger] g0.rank().contains_key(k) implies g2.rank().contains_key(k)
        && g2.rank()[k] == g0.rank()[k] by {
        assert(g1.rank().contains_key(k) && g1.rank()[k] == g0.rank()[k]);
    }
    // the first child stands realized after its own spawn and stays so
    // through its siblings' spawns, which touch only lower-ranked entities
    assert(tree_matches(g1, hc, s[0].0));
    assert(g1.entities()[hc].parent == Parent::Relation(oh, s[0].1));
    let bound = g1.rank()[oh@];
    assert(g1.rank()[hc] > bound);
    assert forall|k: u64| #[trigger] g1.contains(k) && g1.rank()[k] > bound implies g2.contains(k)
        && g2.entities()[k] == g1.entities()[k] by {
        assert(k != oh@);
    }
    lemma_tree_frame(g1, g2, hc, s[0].0, bound);
    assert(child_realized(g2, oh@, hc, s[0].0, s[0].1)) by {
        assert(cm1.contains_key(hc) && cm1[hc] == s[0].1);
        assert(cm2.contains_key(hc) && cm2[hc] == s[0].1);
        assert(g2.entities()[hc] == g1.entities()[hc]);
        assert(g2.rank().contains_key(hc) && g2.rank()[hc] == g1.rank()[hc]);
        assert(g2.rank().contains_key(oh@) && g2.rank()[oh@] == g1.rank()[oh@]);
    }
    // children positions: the head child sits right after the prior
    // entries, the rest follow it
    let len0 = g0.entities()[oh@].children@.len() as int;
    let len1 = g1.entities()[oh@].children@.len() as int;
    assert(len1 == len0 + 1);
    assert(g1.entities()[oh@].children@[len0].0@ == hc);
    assert(g2.entities()[oh@].children@.subrange(0, len1) == g1.entities()[oh@].children@);
    assert(g2.entities()[oh@].children@.subrange(0, len0) =~= g0.entities()[oh@].children@) by {
        assert forall|j: int| 0 <= j < len0 implies g2.entities()[oh@].children@[j] == g0.entities()[oh@].children@[j] by {
            assert(g2.entities()[oh@].children@.subrange(0, len1)[j] == g2.entities()[oh@].children@[j]);
            assert(g1.entities()[oh@].children@.drop_last()[j] == g1.entities()[oh@].children@[j]);
        }
    }
    assert(g2.entities()[oh@].children@.subrange(0, len1)[len0]
        == g2.entities()[oh@].children@[len0]);
    assert(g2.entities()[oh@].children@[len0].0@ == hc);
    assert(child_realized(g2, oh@, g2.entities()[oh@].children@[len0].0@, s[0].0, s[0].1));
    assert(list_matches(g2, oh@, s.drop_first(), len1));
    assert(list_matches(g2, oh@, s, len0));
    assert(children_spawned(g0, g2, oh@, s));
}

/// Handle uniqueness: a successful spawn's handle is distinct from every
/// handle alive before it, and every prior entity stays reachable under its
/// own handle.
pub proof fn lemma_handle_uniqueness(
    pre: Galaxy,
    post: Galaxy,
    object: ObjectBuilder,
    parent: ParentBuilder,
    h: u64,
)
    requires
        spawn_ok(pre, post, object, parent, h),
    ensures
        !pre.contains(h),
        post.contains(h),
        forall|k: u64| #[trigger] pre.contains(k) ==> post.contains(k) && k != h,
{
}

/// Spawn round trip: after a successful spawn, the new handle resolves to
/// an entity carrying exactly the mass, name and kind the builder declared,
/// defaults applied where it declared none.
pub proof fn lemma_spawn_roundtrip(
    pre: Galaxy,
    post: Galaxy,
    object: ObjectBuilder,
    parent: ParentBuilder,
    h: u64,
)
    requires
        spawn_ok(pre, post, object, parent, h),
    ensures
        post.contains(h),
        post.entities()[h].mass == effective_mass(object),
        post.entities()[h].name == effective_name(object),
        post.entities()[h].kind == effective_kind(object),
        post.entities()[h].parent == spawned_parent(parent),
{
}

/// A throwaway entity that briefly fills a slot while its real value is
/// being edited.
fn placeholder_object() -> Object {
    let pos = match Position::new(0, 0) {
        Some(p) => p,
        None => vstd::pervasive::unreached(),
    };
    Object {
        parent: Parent::Position(pos),
        children: Vec::new(),
        mass: 0,
        name: "",
        kind: ObjectKind::Body(Body { composition: Composition::default(), radius: 0 }),
    }
}

impl Galaxy {
    /// Instantiates an entity described by the builder, anchored at a
    /// position or orbiting a live parent, then spawns the builder's nested
    /// children below it. Fails exactly when the attachment names a parent
    /// handle that does not resolve, and then changes nothing.
    #[verifier::rlimit(100)]
    pub fn spawn_object(&mut self, object: ObjectBuilder, parent: ParentBuilder) -> (r: Result<
        ObjectHandle,
        SpawnError,
    >)
        requires
            old(self).wf(),
            old(self).entities().dom().len() + builder_count(object) <= 0xffff_fffe,
        ensures
            final(self).wf(),
            r is Err <==> (parent matches ParentBuilder::Relation(p, _) && !old(self).contains(
                p@,
            )),
            r is Err ==> *final(self) == *old(self),
            r matches Ok(h) ==> spawn_ok(*old(self), *final(self), object, parent, h@),
        decreases builder_count(object), 0int,
    {
        let ghost g0 = *self;
        // refuse an unresolvable parent before touching anything
        let parent_live = match parent {
            ParentBuilder::Relation(p, _) => store_get(&self.objects, p.raw()).is_some(),
            ParentBuilder::Position(_) => true,
        };
        if !parent_live {
            return Err(SpawnError::InvalidParent);
        }
        let ghost b = object;
        let ObjectBuilder { children, mass, name, kind, maneuver } = object;
        let mass = match mass {
            Some(m) => m,
            None => DEFAULT_MASS,
        };
        let name = match name {
            Some(n) => n,
            None => DEFAULT_NAME,
        };
        let kind = match kind {
            Some(k) => k,
            None => ObjectKind::Body(
                Body { composition: Composition::default(), radius: DEFAULT_RADIUS },
            ),
        };
        let new_object = Object {
            parent: match parent {
                ParentBuilder::Position(pos) => Parent::Position(pos),
                ParentBuilder::Relation(p, rel) => Parent::Relation(p, rel),
            },
            children: Vec::new(),
            mass,
            name,
            kind,
        };
        let h_raw = store_insert(&mut self.objects, new_object);
        proof {
            self.order@ = self.order@.insert(h_raw, g0.entities().dom().len());
        }
        if let Some(mv) = maneuver {
            proof {
                assert forall|k: u64| maneuver_entries(self.maneuvers).contains_key(k) implies k
                    == h_raw || raw_handle_idx(k) != raw_handle_idx(h_raw) by {
                    assert(g0.maneuver_map().contains_key(k));
                    assert(g0.contains(k));
                }
            }
            maneuvers_insert(&mut self.maneuvers, h_raw, mv);
        }
        match parent {
            ParentBuilder::Position(pos) => {
                let x = pos.x();
                let y = pos.y();
                spatial_insert(&mut self.spatial, x, y, h_raw);
                proof {
                    assert((x, y, h_raw) == position_entry(pos, h_raw));
                    lemma_spawn_entity_wf(g0, *self, b, parent, h_raw, new_object);
                }
            },
            ParentBuilder::Relation(p, rel) => {
                let handle = ObjectHandle::from_raw(h_raw);
                let mut parent_object = store_swap(&mut self.objects, p.raw(), placeholder_object());
                parent_object.insert_child(handle, rel);
                let _ = store_swap(&mut self.objects, p.raw(), parent_object);
                proof {
                    assert(g0.contains(p@));
                    assert(p@ != h_raw);
                    assert(self.entities() =~= g0.entities().insert(h_raw, new_object).insert(
                        p@,
                        self.entities()[p@],
                    ));
                    assert(self.entities()[p@].same_except_children(g0.entities()[p@]));
                    assert(self.entities()[p@].child_map() == g0.entities()[p@].child_map().insert(
                        h_raw,
                        rel,
                    ));
                    assert(g0.entities()[p@].children_wf());
                    assert(self.entities()[p@].children_wf());
                    assert(!g0.entities()[p@].child_map().contains_key(h_raw));
                    assert(self.entities()[p@].children@ == g0.entities()[p@].children@.push(
                        (handle, rel),
                    ));
                    assert(self.entities()[p@].children@.drop_last()
                        =~= g0.entities()[p@].children@);
                    assert(self.entities()[p@].children@.last().0@ == h_raw);
                    assert(self.spatial_view() == g0.spatial_view());
                    lemma_spawn_entity_wf(g0, *self, b, parent, h_raw, new_object);
                }
            },
        }
        let handle = ObjectHandle::from_raw(h_raw);
        let ghost g1 = *self;
        if let Some(child_list) = children {
            proof {
                assert(children_seq(b) == child_list@);
            }
            self.spawn_children(handle, child_list);
        } else {
            proof {
                assert(builder_list_count(children_seq(b)) == 0);
                let cl = g1.entities()[h_raw].children@;
                assert(cl.subrange(0, cl.len() as int) =~= cl);
                assert(children_spawned(g1, *self, h_raw, children_seq(b)));
            }
        }
        proof {
            lemma_spawn_assemble(g0, g1, *self, b, parent, h_raw);
        }
        Ok(handle)
    }

    /// Spawns each listed child below the given entity, in list order.
    fn spawn_children(
        &mut self,
        object_handle: ObjectHandle,
        children: Vec<(ObjectBuilder, Relation)>,
    )
        requires
            old(self).wf(),
            old(self).contains(object_handle@),
            old(self).entities().dom().len() + builder_list_count(children@) <= 0xffff_fffe,
        ensures
            children_spawned(*old(self), *final(self), object_handle@, children@),
        decreases builder_list_count(children@), 1int,
    {
        let ghost g0 = *self;
        let mut children = children;
        if children.len() > 0 {
            let ghost s = children@;
            let (child, relation) = children.remove(0);
            proof {
                assert(children@ =~= s.drop_first());
                assert(builder_list_count(s) == builder_count(s[0].0) + builder_list_count(
                    s.drop_first(),
                ));
            }
            let result = self.spawn_object(
                child,
                ParentBuilder::Relation(object_handle, relation),
            );
            let child_handle = match result {
                Ok(hh) => hh,
                Err(_) => vstd::pervasive::unreached(),
            };
            let ghost g1 = *self;
            self.spawn_children(object_handle, children);
            proof {
                lemma_spawn_children_stitch(g0, g1, *self, object_handle, child_handle@, s);
            }
        } else {
            proof {
                assert(builder_list_count(children@) == 0);
                let cl = g0.entities()[object_handle@].children@;
                assert(cl.subrange(0, cl.len() as int) =~= cl);
                assert(children_spawned(g0, *self, object_handle@, children@));
            }
        }
    }
}

} // verus!
