//! The displayable form of a breadcrumb: the root anchor position, the
//! ancestor entities, and the focused entity, split out of a flat entry
//! list, with lookup of the entry under a selection index.

use vstd::prelude::*;

use crate::object::ObjectHandle;
use crate::object::Position;

verus! {

/// One entry of a displayable breadcrumb path.
#[derive(Clone, Copy, Debug, PartialEq, Eq, Structural)]
pub enum PathEntry {
    /// The absolute position anchoring the path.
    Position(Position),
    /// An entity along the path.
    Object(ObjectHandle),
}

/// The position opening the list, if the list opens with one.
pub open spec fn leading_position(s: Seq<PathEntry>) -> Option<Position> {
    if s.len() > 0 {
        match s[0] {
            PathEntry::Position(p) => Some(p),
            PathEntry::Object(_) => None,
        }
    } else {
        None
    }
}

/// The list with a leading position, when there is one, taken off.
pub open spec fn after_leading(s: Seq<PathEntry>) -> Seq<PathEntry> {
    if leading_position(s) is Some {
        s.drop_first()
    } else {
        s
    }
}

/// The entity closing the list, if the list closes with one.
pub open spec fn trailing_object(s: Seq<PathEntry>) -> Option<ObjectHandle> {
    if s.len() > 0 {
        match s.last() {
            PathEntry::Object(h) => Some(h),
            PathEntry::Position(_) => None,
        }
    } else {
        None
    }
}

/// The list with a trailing entity, when there is one, taken off.
pub open spec fn without_trailing(s: Seq<PathEntry>) -> Seq<PathEntry> {
    if trailing_object(s) is Some {
        s.drop_last()
    } else {
        s
    }
}

/// The handles of the entity entries of the list, in order.
pub open spec fn object_handles(s: Seq<PathEntry>) -> Seq<ObjectHandle>
    decreases s.len(),
{
    if s.len() == 0 {
        Seq::empty()
    } else {
        match s.last() {
            PathEntry::Object(h) => object_handles(s.drop_last()).push(h),
            PathEntry::Position(_) => object_handles(s.drop_last()),
        }
    }
}

/// A breadcrumb path arranged for display: the anchoring position, the
/// entities between it and the focus, the focused entity, and the selection
/// index to highlight.
#[derive(Debug)]
pub struct Path {
    /// The entry to highlight.
    pub index: usize,
    /// The anchoring position, when the entries opened with one.
    pub position: Option<Position>,
    /// The entities between the anchor and the focus.
    pub objects: Vec<ObjectHandle>,
    /// The focused entity, when the entries closed with one.
    pub object: Option<ObjectHandle>,
}

impl Path {
    /// The entry standing at a selection index: the anchor position at the
    /// start, then the entities in order, then the focused entity.
    pub open spec fn entry_at(self, index: int) -> Option<PathEntry> {
        if index == 0 {
            match self.position {
                Some(p) => Some(PathEntry::Position(p)),
                None => None,
            }
        } else if index - 1 < self.objects@.len() {
            Some(PathEntry::Object(self.objects@[index - 1]))
        } else if self.object is Some && index - 1 == self.objects@.len() {
            Some(PathEntry::Object(self.object->0))
        } else {
            None
        }
    }

    /// Splits a flat entry list into a displayable path: a position opening
    /// the list anchors it, an entity closing the list is the focus, and
    /// the entity entries between them form the ancestor row.
    pub fn from_entries(index: usize, entries: Vec<PathEntry>) -> (r: Path)
        ensures
            r.index == index,
            r.position == leading_position(entries@),
            r.object == trailing_object(after_leading(entries@)),
            r.objects@ == object_handles(without_trailing(after_leading(entries@))),
    {
        let ghost s0 = entries@;
        let mut entries = entries;
        let position = if entries.len() > 0 {
            match entries[0] {
                PathEntry::Position(p) => {
                    entries.remove(0);
                    proof {
                        assert(entries@ =~= s0.drop_first());
                    }
                    Some(p)
                },
                PathEntry::Object(_) => None,
            }
        } else {
            None
        };
        proof {
            assert(entries@ == after_leading(s0));
        }
        let ghost s1 = entries@;
        let object = if entries.len() > 0 {
            match entries[entries.len() - 1] {
                PathEntry::Object(h) => {
                    entries.pop();
                    proof {
                        assert(entries@ =~= s1.drop_last());
                    }
                    Some(h)
                },
                PathEntry::Position(_) => None,
            }
        } else {
            None
        };
        proof {
            assert(entries@ == without_trailing(s1));
        }
        let ghost s2 = entries@;
        let mut objects: Vec<ObjectHandle> = Vec::new();
        let mut i: usize = 0;
        while i < entries.len()
            invariant
                i <= entries@.len(),
                entries@ == s2,
                objects@ == object_handles(s2.take(i as int)),
            decreases entries@.len() - i,
        {
            proof {
                assert(s2.take(i + 1).drop_last() =~= s2.take(i as int));
                assert(s2.take(i + 1).last() == s2[i as int]);
            }
            match entries[i] {
                PathEntry::Object(h) => objects.push(h),
                PathEntry::Position(_) => {},
            }
            i = i + 1;
        }
        proof {
            assert(s2.take(s2.len() as int) =~= s2);
        }
        Path { index, position, objects, object }
    }

    /// The entry under a selection index, or nothing beyond the end.
    pub fn get_index(&self, index: usize) -> (r: Option<PathEntry>)
        ensures
            r == self.entry_at(index as int),
    {
        if index == 0 {
            return match self.position {
                Some(p) => Some(PathEntry::Position(p)),
                None => None,
            };
        }
        if index - 1 < self.objects.len() {
            return Some(PathEntry::Object(self.objects[index - 1]));
        }
        if index - 1 == self.objects.len() {
            return match self.object {
                Some(h) => Some(PathEntry::Object(h)),
                None => None,
            };
        }
        None
    }

    /// How many entries the path shows.
    pub fn entry_count(&self) -> (r: usize)
        requires
            self.objects@.len() + 2 <= usize::MAX,
        ensures
            r == (if self.position is Some {
                1int
            } else {
                0int
            }) + self.objects@.len() + (if self.object is Some {
                1int
            } else {
                0int
            }),
    {
        let mut count = self.objects.len();
        if self.position.is_some() {
            count = count + 1;
        }
        if self.object.is_some() {
            count = count + 1;
        }
        count
    }
}

} // verus!
