//! Entity storage and hierarchical-spatial indexing for a space sandbox.
//!
//! A [`Galaxy`] owns every entity: each one is either anchored at an absolute
//! two-dimensional position (and indexed spatially) or orbits another entity
//! (and is recorded in its parent's children map). Entities are created
//! through a declarative builder, looked up by generational handles, and
//! navigated through breadcrumb chains with a cyclic cursor.

pub mod galaxy;
pub mod nav;
pub mod object;
pub mod path;
pub mod spatial;
pub mod store;

pub use galaxy::Galaxy;
pub use galaxy::lemma_acyclic;
pub use galaxy::lemma_attachment_duality;
pub use galaxy::lemma_chain_reversal;
pub use galaxy::lemma_depth_step;
pub use galaxy::lemma_handle_uniqueness;
pub use galaxy::lemma_spawn_roundtrip;
pub use nav::Command;
pub use nav::Cursor;
pub use nav::NavigationView;
pub use nav::lemma_cursor_wrap;
pub use object::Body;
pub use object::Component;
pub use object::ComponentIndex;
pub use object::ComponentKind;
pub use object::Composition;
pub use object::Distance;
pub use object::Field;
pub use object::FieldMorphology;
pub use object::Maneuver;
pub use object::Mass;
pub use object::Object;
pub use object::ObjectBuilder;
pub use object::ObjectHandle;
pub use object::ObjectKind;
pub use object::Parent;
pub use object::ParentBuilder;
pub use object::Position;
pub use object::Relation;
pub use object::SpawnError;
pub use object::Structure;
pub use path::Path;
pub use path::PathEntry;
