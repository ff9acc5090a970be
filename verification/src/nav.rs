//! Breadcrumb navigation: a resolved ancestor chain for a focus entity and
//! a cyclic cursor over it, driven by explicit commands.

use vstd::prelude::*;

use crate::galaxy::Galaxy;
use crate::galaxy::handles_view;
use crate::object::ObjectHandle;

verus! {

/// The cursor over a breadcrumb chain: either no selection, or a position
/// within the chain.
#[derive(Clone, Copy, Debug, PartialEq, Eq, Structural)]
pub enum Cursor {
    Unset,
    At(usize),
}

/// A navigation command issued by the surrounding interaction layer.
#[derive(Clone, Copy, Debug, PartialEq, Eq, Structural)]
pub enum Command {
    /// Move the cursor one entry toward the root, wrapping cyclically.
    MoveLeft,
    /// Move the cursor one entry away from the root, wrapping cyclically.
    MoveRight,
    /// Re-root navigation at the entry under the cursor.
    Confirm,
    /// Clear the cursor without touching the chain.
    Cancel,
    /// Recompute the chain for the given entity and clear the cursor.
    ResetToHandle(ObjectHandle),
}

/// The cursor points into the chain, except that on an empty chain it may
/// only rest at the start.
pub open spec fn cursor_in_range(c: Cursor, len: nat) -> bool {
    c matches Cursor::At(i) ==> i < len || (len == 0 && i == 0)
}

/// Where one step toward the root lands: an unset cursor starts at the last
/// entry, the first entry wraps to the last, any other entry steps back.
pub open spec fn cursor_left(c: Cursor, len: nat) -> Cursor {
    match c {
        Cursor::Unset => Cursor::At(if len > 0 { (len - 1) as usize } else { 0 }),
        Cursor::At(i) => if i > 0 {
            Cursor::At((i - 1) as usize)
        } else {
            Cursor::At(if len > 0 { (len - 1) as usize } else { 0 })
        },
    }
}

/// Where one step away from the root lands: an unset cursor starts at the
/// first entry, the last entry wraps to the first, any other entry steps
/// forward.
pub open spec fn cursor_right(c: Cursor, len: nat) -> Cursor {
    match c {
        Cursor::Unset => Cursor::At(0),
        Cursor::At(i) => if i + 1 < len {
            Cursor::At((i + 1) as usize)
        } else {
            Cursor::At(0)
        },
    }
}

/// The cursor after stepping toward the root `n` times from unset.
pub open spec fn cursor_after_lefts(n: nat, len: nat) -> Cursor
    decreases n,
{
    if n == 0 {
        Cursor::Unset
    } else {
        cursor_left(cursor_after_lefts((n - 1) as nat, len), len)
    }
}

/// The cursor after stepping away from the root `n` times from unset.
pub open spec fn cursor_after_rights(n: nat, len: nat) -> Cursor
    decreases n,
{
    if n == 0 {
        Cursor::Unset
    } else {
        cursor_right(cursor_after_rights((n - 1) as nat, len), len)
    }
}

/// After `1 <= n <= len` steps away from the root from unset, the cursor
/// stands at entry `n - 1`.
proof fn lemma_rights_progress(n: nat, len: nat)
    requires
        1 <= n <= len,
        len <= usize::MAX,
    ensures
        cursor_after_rights(n, len) == Cursor::At((n - 1) as usize),
    decreases n,
{
    if n == 1 {
        assert(cursor_after_rights(1, len) == cursor_right(cursor_after_rights(0, len), len));
        assert(cursor_after_rights(0, len) == Cursor::Unset);
    } else {
        lemma_rights_progress((n - 1) as nat, len);
        assert(cursor_after_rights(n, len) == cursor_right(Cursor::At((n - 2) as usize), len));
    }
}

/// After `1 <= n <= len` steps toward the root from unset, the cursor
/// stands at entry `len - n`.
proof fn lemma_lefts_progress(n: nat, len: nat)
    requires
        1 <= n <= len,
        len <= usize::MAX,
    ensures
        cursor_after_lefts(n, len) == Cursor::At((len - n) as usize),
    decreases n,
{
    if n == 1 {
        assert(cursor_after_lefts(1, len) == cursor_left(cursor_after_lefts(0, len), len));
        assert(cursor_after_lefts(0, len) == Cursor::Unset);
    } else {
        lemma_lefts_progress((n - 1) as nat, len);
        assert(cursor_after_lefts(n, len) == cursor_left(
            Cursor::At((len - (n - 1)) as usize),
            len,
        ));
    }
}

/// Cursor wrap law: on a chain of length `len`, stepping away from the root
/// `len + 1` times from unset returns the cursor to the first entry, and
/// stepping toward the root `len + 1` times from unset returns it to the
/// last entry (to the start, on an empty chain).
pub proof fn lemma_cursor_wrap(len: nat)
    requires
        len <= usize::MAX,
    ensures
        cursor_after_rights(len + 1, len) == Cursor::At(0),
        cursor_after_lefts(len + 1, len) == Cursor::At(
            if len > 0 {
                (len - 1) as usize
            } else {
                0
            },
        ),
{
    if len == 0 {
        assert(cursor_after_rights(1, 0) == Cursor::At(0));
        assert(cursor_after_lefts(1, 0) == Cursor::At(0));
    } else {
        lemma_rights_progress(len, len);
        lemma_lefts_progress(len, len);
        assert(cursor_after_rights(len + 1, len) == cursor_right(
            Cursor::At((len - 1) as usize),
            len,
        ));
        assert(cursor_after_lefts(len + 1, len) == cursor_left(Cursor::At(0), len));
    }
}

/// The navigable breadcrumb of a focus entity: the resolved ancestor chain,
/// a cyclic cursor over it, and the focus the chain was resolved for.
pub struct NavigationView {
    /// The ancestors of the focus, nearest the root first.
    pub chain: Vec<ObjectHandle>,
    /// The selection within the chain.
    pub cursor: Cursor,
    /// The entity the chain was resolved for.
    pub focus: Option<ObjectHandle>,
}

impl NavigationView {
    /// The view is in step with the galaxy: the chain is the focus's
    /// resolved ancestor chain of live entities, and the cursor points into
    /// it.
    pub open spec fn wf(self, g: Galaxy) -> bool {
        &&& match self.focus {
            Some(f) => g.contains(f@) && handles_view(self.chain@) == g.chain_of(f@),
            None => self.chain@.len() == 0,
        }
        &&& forall|i: int| 0 <= i < self.chain@.len() ==> g.contains(#[trigger] self.chain@[i]@)
        &&& cursor_in_range(self.cursor, self.chain@.len())
    }

    /// A view of nothing: no focus, no chain, no selection.
    pub fn new() -> (v: NavigationView)
        ensures
            v.chain@.len() == 0,
            v.cursor == Cursor::Unset,
            v.focus is None,
            forall|g: Galaxy| v.wf(g),
    {
        NavigationView { chain: Vec::new(), cursor: Cursor::Unset, focus: None }
    }

    /// Re-roots the view at the given live entity: resolves its chain and
    /// clears the cursor.
    pub fn reset_to(&mut self, galaxy: &Galaxy, object_handle: ObjectHandle)
        requires
            galaxy.wf(),
            galaxy.contains(object_handle@),
        ensures
            final(self).wf(*galaxy),
            final(self).focus == Some(object_handle),
            handles_view(final(self).chain@) == galaxy.chain_of(object_handle@),
            final(self).cursor == Cursor::Unset,
    {
        self.chain = galaxy.resolve_chain(object_handle);
        self.focus = Some(object_handle);
        self.cursor = Cursor::Unset;
    }

    /// Applies one navigation command. Movement steps the cursor cyclically
    /// over the chain; confirming re-roots the view at the selected
    /// ancestor; cancelling clears the cursor; resetting re-roots the view
    /// at a caller-supplied live entity.
    pub fn apply(&mut self, command: Command, galaxy: &Galaxy)
        requires
            galaxy.wf(),
            old(self).wf(*galaxy),
            (command matches Command::ResetToHandle(h) ==> galaxy.contains(h@)),
        ensures
            final(self).wf(*galaxy),
            command == Command::MoveLeft ==> final(self).cursor == cursor_left(
                old(self).cursor,
                old(self).chain@.len(),
            ) && final(self).chain == old(self).chain && final(self).focus == old(self).focus,
            command == Command::MoveRight ==> final(self).cursor == cursor_right(
                old(self).cursor,
                old(self).chain@.len(),
            ) && final(self).chain == old(self).chain && final(self).focus == old(self).focus,
            command == Command::Cancel ==> final(self).cursor == Cursor::Unset && final(self).chain
                == old(self).chain && final(self).focus == old(self).focus,
            (command matches Command::ResetToHandle(h) ==> final(self).focus == Some(h)
                && handles_view(final(self).chain@) == galaxy.chain_of(h@) && final(self).cursor
                == Cursor::Unset),
            command == Command::Confirm && old(self).cursor is Unset ==> *final(self) == *old(
                self,
            ),
            (old(self).cursor is At && command == Command::Confirm && old(self).cursor->At_0 < old(
                self,
            ).chain@.len() ==> final(self).focus == Some(
                old(self).chain@[old(self).cursor->At_0 as int],
            ) && handles_view(final(self).chain@) == galaxy.chain_of(
                old(self).chain@[old(self).cursor->At_0 as int]@,
            ) && final(self).cursor == Cursor::Unset),
            (old(self).cursor is At && command == Command::Confirm && old(self).cursor->At_0 >= old(
                self,
            ).chain@.len() ==> final(self).cursor == Cursor::Unset && final(self).chain == old(
                self,
            ).chain && final(self).focus == old(self).focus),
    {
        match command {
            Command::MoveLeft => {
                let len = self.chain.len();
                self.cursor = match self.cursor {
                    Cursor::Unset => Cursor::At(if len > 0 {
                        len - 1
                    } else {
                        0
                    }),
                    Cursor::At(i) => if i > 0 {
                        Cursor::At(i - 1)
                    } else {
                        Cursor::At(
                            if len > 0 {
                                len - 1
                            } else {
                                0
                            },
                        )
                    },
                };
            },
            Command::MoveRight => {
                let len = self.chain.len();
                self.cursor = match self.cursor {
                    Cursor::Unset => Cursor::At(0),
                    Cursor::At(i) => if i + 1 < len {
                        Cursor::At(i + 1)
                    } else {
                        Cursor::At(0)
                    },
                };
            },
            Command::Confirm => {
                if let Cursor::At(i) = self.cursor {
                    if i < self.chain.len() {
                        let target = self.chain[i];
                        self.reset_to(galaxy, target);
                    } else {
                        self.cursor = Cursor::Unset;
                    }
                }
            },
            Command::Cancel => {
                self.cursor = Cursor::Unset;
            },
            Command::ResetToHandle(h) => {
                self.reset_to(galaxy, h);
            },
        }
    }
}

} // verus!
