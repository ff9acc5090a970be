//! The entity data model: handles, positions, attachment relations, and the
//! descriptive payload of every body in the galaxy.

use vstd::prelude::*;

verus! {

/// Mass of an entity, in fixed mass units.
pub type Mass = u64;

/// A length, in fixed length units.
pub type Distance = u64;

/// Largest coordinate magnitude a position may have. The bound keeps the
/// area and overlap arithmetic inside the spatial index within `i64`.
pub const COORD_LIMIT: i64 = 100_000_000;

/// A raw handle is the 64-bit form of a generational slot key: the slot
/// index in the low 32 bits and an odd generation in the high 32 bits.
/// The all-ones index is reserved for the null key and never handed out.
pub open spec fn raw_handle_ok(raw: u64) -> bool {
    &&& (raw >> 32) & 1 == 1
    &&& raw & 0xffff_ffff != 0xffff_ffff
}

/// The slot-index part of a raw handle: two live handles never share it.
pub open spec fn raw_handle_idx(raw: u64) -> u64 {
    raw & 0xffff_ffff
}

/// Opaque, unique identifier of a live entity in a galaxy. A handle stays
/// valid for the whole life of the galaxy that issued it.
#[derive(Clone, Copy, PartialEq, Eq, Hash, Debug, Structural)]
pub struct ObjectHandle {
    raw: u64,
}

impl View for ObjectHandle {
    type V = u64;

    closed spec fn view(&self) -> u64 {
        self.raw
    }
}

impl ObjectHandle {
    #[verifier::type_invariant]
    spec fn type_inv(self) -> bool {
        raw_handle_ok(self.raw)
    }

    pub(crate) fn from_raw(raw: u64) -> (h: ObjectHandle)
        requires
            raw_handle_ok(raw),
        ensures
            h@ == raw,
    {
        ObjectHandle { raw }
    }

    pub(crate) fn raw(self) -> (r: u64)
        ensures
            r == self@,
            raw_handle_ok(r),
    {
        proof {
            use_type_invariant(self);
        }
        self.raw
    }
}

pub open spec fn in_coord_range(c: int) -> bool {
    -COORD_LIMIT <= c <= COORD_LIMIT
}

/// An absolute position in universe space, in fixed coordinate units
/// (a thousand units to one distance unit of the rendered world).
#[derive(Clone, Copy, PartialEq, Eq, Hash, Debug, Structural)]
pub struct Position {
    x: i64,
    y: i64,
}

impl View for Position {
    type V = (int, int);

    closed spec fn view(&self) -> (int, int) {
        (self.x as int, self.y as int)
    }
}

impl Position {
    #[verifier::type_invariant]
    spec fn type_inv(self) -> bool {
        in_coord_range(self.x as int) && in_coord_range(self.y as int)
    }

    /// Builds a position; coordinates beyond [`COORD_LIMIT`] are rejected.
    pub fn new(x: i64, y: i64) -> (r: Option<Position>)
        ensures
            in_coord_range(x as int) && in_coord_range(y as int) ==> (r matches Some(p)
                && p@ == (x as int, y as int)),
            !(in_coord_range(x as int) && in_coord_range(y as int)) ==> r is None,
    {
        if -COORD_LIMIT <= x && x <= COORD_LIMIT && -COORD_LIMIT <= y && y <= COORD_LIMIT {
            Some(Position { x, y })
        } else {
            None
        }
    }

    pub fn x(&self) -> (r: i64)
        ensures
            r as int == self@.0,
            in_coord_range(r as int),
    {
        proof {
            use_type_invariant(self);
        }
        self.x
    }

    pub fn y(&self) -> (r: i64)
        ensures
            r as int == self@.1,
            in_coord_range(r as int),
    {
        proof {
            use_type_invariant(self);
        }
        self.y
    }
}

/// How a child entity is attached to its parent.
#[derive(Clone, Copy, Debug, PartialEq, Eq, Hash, Structural)]
pub enum Relation {
    /// A circular orbit at the given altitude above the parent.
    Orbit(usize),
}

/// An entity's attachment: either anchored at an absolute position, or
/// orbiting another entity under the given relation.
#[derive(Clone, Copy, Debug, PartialEq, Eq, Structural)]
pub enum Parent {
    Position(Position),
    Relation(ObjectHandle, Relation),
}

/// Denominator of the composition fractions: a full share of one material.
pub const COMPOSITION_UNIT: u32 = 1_000_000;

/// Material make-up of a body or field, in parts per [`COMPOSITION_UNIT`].
#[derive(Clone, Copy, Debug, PartialEq, Eq, Structural)]
pub struct Composition {
    pub hydrogen: u32,
    pub helium: u32,
    pub rock: u32,
    pub ice: u32,
    pub metals: u32,
}

impl Default for Composition {
    /// A default composition is pure rock.
    fn default() -> (c: Self)
        ensures
            c == (Composition {
                hydrogen: 0,
                helium: 0,
                rock: COMPOSITION_UNIT,
                ice: 0,
                metals: 0,
            }),
    {
        Composition { hydrogen: 0, helium: 0, rock: COMPOSITION_UNIT, ice: 0, metals: 0 }
    }
}

/// A solid celestial body.
#[derive(Clone, Copy, Debug, PartialEq, Eq, Structural)]
pub struct Body {
    pub composition: Composition,
    pub radius: Distance,
}

/// Shape of a diffuse field.
#[derive(Clone, Copy, Debug, PartialEq, Eq, Structural)]
pub enum FieldMorphology {
    Cloud {
        /// Extent from the field's own center of mass.
        radius: Distance,
    },
    Disk {
        /// Extent from the parent's center of mass.
        radius: Distance,
    },
    Belt {
        /// Inner edge, from the parent's center of mass.
        inner: Distance,
        /// Outer edge, from the parent's center of mass.
        outer: Distance,
    },
}

/// A diffuse field of material (cloud, disk or belt).
#[derive(Clone, Copy, Debug, PartialEq, Eq, Structural)]
pub struct Field {
    pub composition: Composition,
    pub morphology: FieldMorphology,
}

/// One installed component of a structure.
#[derive(Clone, Copy, Debug, PartialEq, Eq)]
pub enum Component {
    Reactor(()),
    Cargo,
    Thruster,
    Drill,
}

/// The kinds a [`Component`] can have, used to index components by kind.
#[derive(Clone, Copy, Debug, PartialEq, Eq, Structural)]
pub enum ComponentKind {
    Reactor,
    Cargo,
    Thruster,
    Drill,
}

/// Number of component kinds.
pub const COMPONENT_KIND_COUNT: usize = 4;

/// The position a component kind takes in a by-kind index.
pub open spec fn spec_kind_slot(k: ComponentKind) -> int {
    match k {
        ComponentKind::Reactor => 0,
        ComponentKind::Cargo => 1,
        ComponentKind::Thruster => 2,
        ComponentKind::Drill => 3,
    }
}

/// The kind of a component.
pub open spec fn spec_component_kind(c: Component) -> ComponentKind {
    match c {
        Component::Reactor(_) => ComponentKind::Reactor,
        Component::Cargo => ComponentKind::Cargo,
        Component::Thruster => ComponentKind::Thruster,
        Component::Drill => ComponentKind::Drill,
    }
}

impl ComponentKind {
    /// The position this kind takes in a by-kind index.
    pub fn slot(self) -> (r: usize)
        ensures
            r == spec_kind_slot(self),
            r < COMPONENT_KIND_COUNT,
    {
        match self {
            ComponentKind::Reactor => 0,
            ComponentKind::Cargo => 1,
            ComponentKind::Thruster => 2,
            ComponentKind::Drill => 3,
        }
    }
}

impl Component {
    /// The kind of this component.
    pub fn kind(&self) -> (r: ComponentKind)
        ensures
            r == spec_component_kind(*self),
    {
        match self {
            Component::Reactor(_) => ComponentKind::Reactor,
            Component::Cargo => ComponentKind::Cargo,
            Component::Thruster => ComponentKind::Thruster,
            Component::Drill => ComponentKind::Drill,
        }
    }
}

/// The positions, in order, at which components of kind `k` appear in `s`.
pub open spec fn indices_of_kind(s: Seq<Component>, k: ComponentKind) -> Seq<usize>
    decreases s.len(),
{
    if s.len() == 0 {
        Seq::empty()
    } else if spec_component_kind(s.last()) == k {
        indices_of_kind(s.drop_last(), k).push((s.len() - 1) as usize)
    } else {
        indices_of_kind(s.drop_last(), k)
    }
}

/// Positions of components, grouped by component kind: list `spec_kind_slot(k)`
/// holds, in increasing order, the indices of the components of kind `k`.
#[derive(Debug)]
pub struct ComponentIndex {
    by_kind: Vec<Vec<usize>>,
}

/// A built structure (station, ship hull): an ordered list of components
/// together with an index of the components by kind.
#[derive(Debug)]
pub struct Structure {
    components: Vec<Component>,
    index: ComponentIndex,
}

/// Every entry of `indices_of_kind(s, k)` is a valid position in `s` holding
/// a component of kind `k`, and the entries are strictly increasing.
pub proof fn lemma_indices_of_kind(s: Seq<Component>, k: ComponentKind)
    requires
        s.len() <= usize::MAX,
    ensures
        forall|j: int|
            0 <= j < indices_of_kind(s, k).len() ==> (#[trigger] indices_of_kind(s, k)[j]) < s.len()
                && spec_component_kind(s[indices_of_kind(s, k)[j] as int]) == k,
    decreases s.len(),
{
    if s.len() > 0 {
        lemma_indices_of_kind(s.drop_last(), k);
        assert forall|j: int| 0 <= j < indices_of_kind(s, k).len() implies (
        #[trigger] indices_of_kind(s, k)[j]) < s.len() && spec_component_kind(
            s[indices_of_kind(s, k)[j] as int],
        ) == k by {
            let curr = indices_of_kind(s, k);
            let prev = indices_of_kind(s.drop_last(), k);
            if spec_component_kind(s.last()) == k {
                assert(curr == prev.push((s.len() - 1) as usize));
                if j < prev.len() {
                    assert(curr[j] == prev[j]);
                    assert(s.drop_last()[prev[j] as int] == s[prev[j] as int]);
                } else {
                    assert(curr[j] == (s.len() - 1) as usize);
                    assert(s[s.len() - 1] == s.last());
                }
            } else {
                assert(curr == prev);
                assert(s.drop_last()[prev[j] as int] == s[prev[j] as int]);
            }
        }
    }
}

impl Structure {
    #[verifier::type_invariant]
    spec fn type_inv(self) -> bool {
        &&& self.index.by_kind@.len() == COMPONENT_KIND_COUNT
        &&& self.index.by_kind@[0]@ == indices_of_kind(
            self.components@,
            ComponentKind::Reactor,
        )
        &&& self.index.by_kind@[1]@ == indices_of_kind(self.components@, ComponentKind::Cargo)
        &&& self.index.by_kind@[2]@ == indices_of_kind(
            self.components@,
            ComponentKind::Thruster,
        )
        &&& self.index.by_kind@[3]@ == indices_of_kind(self.components@, ComponentKind::Drill)
    }

    /// The components of the structure, in installation order.
    pub closed spec fn spec_components(self) -> Seq<Component> {
        self.components@
    }

    /// Builds a structure from its components, indexing them by kind.
    pub fn new(components: Vec<Component>) -> (s: Structure)
        ensures
            s.spec_components() == components@,
    {
        let mut reactors: Vec<usize> = Vec::new();
        let mut cargos: Vec<usize> = Vec::new();
        let mut thrusters: Vec<usize> = Vec::new();
        let mut drills: Vec<usize> = Vec::new();
        let mut i: usize = 0;
        while i < components.len()
            invariant
                i <= components@.len(),
                reactors@ == indices_of_kind(
                    components@.take(i as int),
                    ComponentKind::Reactor,
                ),
                cargos@ == indices_of_kind(components@.take(i as int), ComponentKind::Cargo),
                thrusters@ == indices_of_kind(
                    components@.take(i as int),
                    ComponentKind::Thruster,
                ),
                drills@ == indices_of_kind(components@.take(i as int), ComponentKind::Drill),
            decreases components@.len() - i,
        {
            proof {
                assert(components@.take(i + 1).drop_last() =~= components@.take(i as int));
                assert(components@.take(i + 1).last() == components@[i as int]);
            }
            match components[i].kind() {
                ComponentKind::Reactor => reactors.push(i),
                ComponentKind::Cargo => cargos.push(i),
                ComponentKind::Thruster => thrusters.push(i),
                ComponentKind::Drill => drills.push(i),
            }
            i = i + 1;
        }
        proof {
            assert(components@.take(components@.len() as int) =~= components@);
        }
        let mut by_kind: Vec<Vec<usize>> = Vec::new();
        by_kind.push(reactors);
        by_kind.push(cargos);
        by_kind.push(thrusters);
        by_kind.push(drills);
        Structure { components, index: ComponentIndex { by_kind } }
    }

    /// Hands out one entry for each reactor component, in installation order.
    pub fn reactors(&self) -> (r: Vec<()>)
        ensures
            r@.len() == indices_of_kind(self.spec_components(), ComponentKind::Reactor).len(),
    {
        proof {
            use_type_invariant(self);
            vstd::std_specs::vec::axiom_spec_len(&self.components);
            lemma_indices_of_kind(self.components@, ComponentKind::Reactor);
        }
        let idxs = &self.index.by_kind[0];
        let mut out: Vec<()> = Vec::new();
        let mut j: usize = 0;
        while j < idxs.len()
            invariant
                j <= idxs@.len(),
                out@.len() == j,
                idxs@ == indices_of_kind(self.components@, ComponentKind::Reactor),
                forall|p: int|
                    0 <= p < idxs@.len() ==> (#[trigger] idxs@[p]) < self.components@.len()
                        && spec_component_kind(self.components@[idxs@[p] as int])
                        == ComponentKind::Reactor,
            decreases idxs@.len() - j,
        {
            let i = idxs[j];
            match self.components[i] {
                Component::Reactor(a) => out.push(a),
                _ => {
                    proof {
                        assert(false);
                    }
                },
            }
            j = j + 1;
        }
        out
    }

    /// Number of installed components.
    pub fn components_count(&self) -> (r: usize)
        ensures
            r == self.spec_components().len(),
    {
        self.components.len()
    }
}

/// A maneuver capability an entity may be given at spawn time.
#[derive(Clone, Copy, Debug, PartialEq, Eq, Structural)]
pub struct Maneuver;

/// What an entity is: a solid body, a diffuse field, or a built structure.
#[derive(Debug)]
pub enum ObjectKind {
    Body(Body),
    Field(Field),
    Structure(Structure),
}

/// The map described by a list of child entries: each child handle goes to
/// the relation it is attached under; a later entry wins over an earlier one.
pub open spec fn pairs_to_map(s: Seq<(ObjectHandle, Relation)>) -> Map<u64, Relation>
    decreases s.len(),
{
    if s.len() == 0 {
        Map::empty()
    } else {
        pairs_to_map(s.drop_last()).insert(s.last().0@, s.last().1)
    }
}

/// No two entries of the list carry the same child handle.
pub open spec fn no_dup_keys(s: Seq<(ObjectHandle, Relation)>) -> bool {
    forall|i: int, j: int| 0 <= i < j < s.len() ==> (#[trigger] s[i]).0@ != (#[trigger] s[j]).0@
}

/// A key is in the map of a list exactly when some entry carries it.
pub proof fn lemma_pairs_to_map_dom(s: Seq<(ObjectHandle, Relation)>, k: u64)
    ensures
        pairs_to_map(s).contains_key(k) <==> exists|i: int|
            0 <= i < s.len() && (#[trigger] s[i]).0@ == k,
    decreases s.len(),
{
    if s.len() > 0 {
        lemma_pairs_to_map_dom(s.drop_last(), k);
        if s.last().0@ == k {
            assert(s[s.len() - 1].0@ == k);
        } else if exists|i: int| 0 <= i < s.len() && (#[trigger] s[i]).0@ == k {
            let i = choose|i: int| 0 <= i < s.len() && (#[trigger] s[i]).0@ == k;
            assert(s.drop_last()[i] == s[i]);
        }
    }
}

/// If position `j` is the last entry with its handle, the map takes its value.
pub proof fn lemma_pairs_to_map_value(s: Seq<(ObjectHandle, Relation)>, j: int)
    requires
        0 <= j < s.len(),
        forall|p: int| j < p < s.len() ==> (#[trigger] s[p]).0@ != s[j].0@,
    ensures
        pairs_to_map(s).contains_key(s[j].0@),
        pairs_to_map(s)[s[j].0@] == s[j].1,
    decreases s.len(),
{
    if j == s.len() - 1 {
        assert(s.last() == s[j]);
    } else {
        assert forall|p: int| j < p < s.drop_last().len() implies (#[trigger] s.drop_last()[p]).0@
            != s.drop_last()[j].0@ by {
            assert(s.drop_last()[p] == s[p]);
        }
        lemma_pairs_to_map_value(s.drop_last(), j);
        assert(s.last().0@ != s[j].0@);
    }
}

/// Updating the last entry with a handle replaces that handle's value.
pub proof fn lemma_pairs_to_map_update(s: Seq<(ObjectHandle, Relation)>, j: int, r: Relation)
    requires
        0 <= j < s.len(),
        forall|p: int| j < p < s.len() ==> (#[trigger] s[p]).0@ != s[j].0@,
    ensures
        pairs_to_map(s.update(j, (s[j].0, r))) == pairs_to_map(s).insert(s[j].0@, r),
    decreases s.len(),
{
    let t = s.update(j, (s[j].0, r));
    if j == s.len() - 1 {
        assert(t.drop_last() =~= s.drop_last());
        assert(t.last() == (s[j].0, r));
        assert(pairs_to_map(s.drop_last()).insert(s[j].0@, r) =~= pairs_to_map(s).insert(
            s[j].0@,
            r,
        ));
    } else {
        assert forall|p: int| j < p < s.drop_last().len() implies (#[trigger] s.drop_last()[p]).0@
            != s.drop_last()[j].0@ by {
            assert(s.drop_last()[p] == s[p]);
        }
        lemma_pairs_to_map_update(s.drop_last(), j, r);
        assert(t.drop_last() =~= s.drop_last().update(j, (s[j].0, r)));
        assert(t.last() == s.last());
        assert(s.last().0@ != s[j].0@);
        assert(pairs_to_map(t) == pairs_to_map(s.drop_last()).insert(s[j].0@, r).insert(
            s.last().0@,
            s.last().1,
        ));
        assert(pairs_to_map(s.drop_last()).insert(s[j].0@, r).insert(s.last().0@, s.last().1)
            =~= pairs_to_map(s).insert(s[j].0@, r));
    }
}

/// An entity of the galaxy: its attachment, its dependents, and its
/// descriptive payload.
#[derive(Debug)]
pub struct Object {
    /// The attachment of the entity: a root anchor or an orbit.
    pub parent: Parent,
    /// The dependents: child handle and the relation it is attached under.
    pub children: Vec<(ObjectHandle, Relation)>,
    pub mass: Mass,
    pub name: &'static str,
    pub kind: ObjectKind,
}

impl Object {
    /// The children map: child handle to the relation it is attached under.
    pub open spec fn child_map(self) -> Map<u64, Relation> {
        pairs_to_map(self.children@)
    }

    /// The child entries carry pairwise distinct handles.
    pub open spec fn children_wf(self) -> bool {
        no_dup_keys(self.children@)
    }

    /// Everything but the children is the same in both objects.
    pub open spec fn same_except_children(self, o: Object) -> bool {
        &&& self.parent == o.parent
        &&& self.mass == o.mass
        &&& self.name == o.name
        &&& self.kind == o.kind
    }

    /// A fresh builder with no attribute set.
    pub fn builder() -> (b: ObjectBuilder)
        ensures
            b == ObjectBuilder::spec_default(),
    {
        ObjectBuilder::default()
    }

    /// The relation a child is attached under, or nothing for a stranger.
    pub fn get_child(&self, object_handle: ObjectHandle) -> (r: Option<&Relation>)
        ensures
            match r {
                Some(rel) => self.child_map().contains_key(object_handle@) && *rel
                    == self.child_map()[object_handle@],
                None => !self.child_map().contains_key(object_handle@),
            },
    {
        let mut j: usize = self.children.len();
        while j > 0
            invariant
                j <= self.children@.len(),
                forall|p: int|
                    j <= p < self.children@.len() ==> (#[trigger] self.children@[p]).0@
                        != object_handle@,
            decreases j,
        {
            j = j - 1;
            if self.children[j].0 == object_handle {
                proof {
                    lemma_pairs_to_map_value(self.children@, j as int);
                }
                return Some(&self.children[j].1);
            }
        }
        proof {
            lemma_pairs_to_map_dom(self.children@, object_handle@);
        }
        None
    }

    /// Records a dependent: adds the child under the relation, or replaces
    /// the relation of a child already present.
    #[verifier::loop_isolation(false)]
    pub fn insert_child(&mut self, object_handle: ObjectHandle, relation: Relation)
        ensures
            final(self).child_map() == old(self).child_map().insert(object_handle@, relation),
            final(self).same_except_children(*old(self)),
            old(self).children_wf() ==> final(self).children_wf(),
            old(self).child_map().contains_key(object_handle@) ==> final(self).children@.len()
                == old(self).children@.len(),
            !old(self).child_map().contains_key(object_handle@) ==> final(self).children@ == old(
                self,
            ).children@.push((object_handle, relation)),
    {
        let ghost s0 = self.children@;
        let mut j: usize = self.children.len();
        while j > 0
            invariant
                j <= self.children@.len(),
                self.children@ == s0,
                self.parent == old(self).parent,
                self.mass == old(self).mass,
                self.name == old(self).name,
                self.kind == old(self).kind,
                forall|p: int|
                    j <= p < self.children@.len() ==> (#[trigger] self.children@[p]).0@
                        != object_handle@,
            decreases j,
        {
            j = j - 1;
            if self.children[j].0 == object_handle {
                proof {
                    lemma_pairs_to_map_dom(s0, object_handle@);
                    lemma_pairs_to_map_update(s0, j as int, relation);
                }
                self.children[j] = (object_handle, relation);
                proof {
                    assert(self.children@ =~= s0.update(j as int, (s0[j as int].0, relation)));
                    if no_dup_keys(s0) {
                        assert forall|a: int, b: int|
                            0 <= a < b < self.children@.len() implies (
                        #[trigger] self.children@[a]).0@ != (#[trigger] self.children@[b]).0@ by {
                            assert(s0[a].0@ != s0[b].0@);
                        }
                    }
                }
                return ;
            }
        }
        proof {
            lemma_pairs_to_map_dom(s0, object_handle@);
        }
        self.children.push((object_handle, relation));
        proof {
            assert(self.children@.drop_last() =~= s0);
            if no_dup_keys(s0) {
                assert forall|a: int, b: int| 0 <= a < b < self.children@.len() implies (
                #[trigger] self.children@[a]).0@ != (#[trigger] self.children@[b]).0@ by {
                    if b < s0.len() {
                        assert(s0[a].0@ != s0[b].0@);
                    } else {
                        assert(self.children@[b].0@ == object_handle@);
                        assert(s0[a].0@ != object_handle@);
                    }
                }
            }
        }
    }

    /// How many dependents the entity has.
    pub fn children_count(&self) -> (r: usize)
        ensures
            r == self.children@.len(),
    {
        self.children.len()
    }
}

/// Default mass of a spawned entity, when the builder leaves it unset.
pub const DEFAULT_MASS: Mass = 1_000_000;

/// Default name of a spawned entity, when the builder leaves it unset.
pub const DEFAULT_NAME: &'static str = "Object";

/// Default body radius of a spawned entity, when the builder leaves the kind
/// unset.
pub const DEFAULT_RADIUS: Distance = 1_000;

/// A declarative specification of an entity to create: every attribute is
/// optional and falls back to an explicit default, and nested children (each
/// paired with the relation attaching it) are spawned below the new entity.
#[derive(Debug)]
pub struct ObjectBuilder {
    pub children: Option<Vec<(ObjectBuilder, Relation)>>,
    pub mass: Option<Mass>,
    pub name: Option<&'static str>,
    pub kind: Option<ObjectKind>,
    pub maneuver: Option<Maneuver>,
}

/// The child specifications of a builder, as a sequence.
pub open spec fn children_seq(b: ObjectBuilder) -> Seq<(ObjectBuilder, Relation)> {
    match b.children {
        Option::None => Seq::empty(),
        Option::Some(v) => v@,
    }
}

/// How many entities spawning the builder creates: the entity itself and,
/// recursively, all its nested children.
pub open spec fn builder_count(b: ObjectBuilder) -> nat
    decreases b,
{
    match b.children {
        Option::None => 1,
        Option::Some(v) => 1 + builder_list_count(v@),
    }
}

/// How many entities spawning each builder of the list creates, in total.
pub open spec fn builder_list_count(s: Seq<(ObjectBuilder, Relation)>) -> nat
    decreases s,
{
    if s.len() == 0 {
        0
    } else {
        builder_count(s[0].0) + builder_list_count(s.drop_first())
    }
}

/// The mass a builder gives the new entity.
pub open spec fn effective_mass(b: ObjectBuilder) -> Mass {
    match b.mass {
        Option::Some(m) => m,
        Option::None => DEFAULT_MASS,
    }
}

/// The name a builder gives the new entity.
pub open spec fn effective_name(b: ObjectBuilder) -> &'static str {
    match b.name {
        Option::Some(n) => n,
        Option::None => DEFAULT_NAME,
    }
}

/// The kind an entity gets when the builder leaves it unset: a rock body.
pub open spec fn spec_default_kind() -> ObjectKind {
    ObjectKind::Body(
        Body {
            composition: Composition {
                hydrogen: 0,
                helium: 0,
                rock: COMPOSITION_UNIT,
                ice: 0,
                metals: 0,
            },
            radius: DEFAULT_RADIUS,
        },
    )
}

/// The kind a builder gives the new entity.
pub open spec fn effective_kind(b: ObjectBuilder) -> ObjectKind {
    match b.kind {
        Option::Some(k) => k,
        Option::None => spec_default_kind(),
    }
}

impl ObjectBuilder {
    /// The builder `Default` hands out: no attribute set.
    pub open spec fn spec_default() -> ObjectBuilder {
        ObjectBuilder { children: None, mass: None, name: None, kind: None, maneuver: None }
    }

    /// Sets the name of the entity to create.
    pub fn name(self, name: &'static str) -> (b: Self)
        ensures
            b == (ObjectBuilder { name: Some(name), ..self }),
    {
        ObjectBuilder { name: Some(name), ..self }
    }

    /// Sets the mass of the entity to create.
    pub fn mass(self, mass: Mass) -> (b: Self)
        ensures
            b == (ObjectBuilder { mass: Some(mass), ..self }),
    {
        ObjectBuilder { mass: Some(mass), ..self }
    }

    /// Sets the kind of the entity to create.
    pub fn kind(self, kind: ObjectKind) -> (b: Self)
        ensures
            b == (ObjectBuilder { kind: Some(kind), ..self }),
    {
        ObjectBuilder { kind: Some(kind), ..self }
    }

    /// Gives the entity to create a maneuver capability.
    pub fn maneuver(self, maneuver: Maneuver) -> (b: Self)
        ensures
            b == (ObjectBuilder { maneuver: Some(maneuver), ..self }),
    {
        ObjectBuilder { maneuver: Some(maneuver), ..self }
    }

    /// Adds a nested child specification, attached under the given relation.
    pub fn child(self, child: ObjectBuilder, relation: Relation) -> (b: Self)
        ensures
            children_seq(b) == children_seq(self).push((child, relation)),
            b.mass == self.mass,
            b.name == self.name,
            b.kind == self.kind,
            b.maneuver == self.maneuver,
    {
        let mut b = self;
        match b.children {
            Some(ref mut children) => {
                children.push((child, relation));
            },
            None => {
                let mut v: Vec<(ObjectBuilder, Relation)> = Vec::new();
                v.push((child, relation));
                proof {
                    assert(v@ =~= children_seq(self).push((child, relation)));
                }
                b.children = Some(v);
            },
        }
        b
    }
}

impl Default for ObjectBuilder {
    /// A fresh builder with no attribute set.
    fn default() -> (b: Self)
        ensures
            b == ObjectBuilder::spec_default(),
    {
        ObjectBuilder { children: None, mass: None, name: None, kind: None, maneuver: None }
    }
}

/// Where a new entity is anchored: at an absolute position, or orbiting an
/// existing entity under the given relation.
#[derive(Clone, Copy, Debug, PartialEq, Eq, Structural)]
pub enum ParentBuilder {
    Position(Position),
    Relation(ObjectHandle, Relation),
}

/// Why a spawn was refused.
#[derive(Clone, Copy, Debug, PartialEq, Eq, Structural)]
pub enum SpawnError {
    /// The attachment names a parent handle that does not resolve.
    InvalidParent,
}

} // verus!
