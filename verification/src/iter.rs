//! The cursor: a positioned traversal over a snapshot of the key space.
//!
//! A cursor owns a snapshot of the store's entries taken when it was
//! created, so it keeps reading a consistent view while the handle moves
//! on. Its position is first-class state: either standing on an entry, or
//! invalid on one of the two sides of the key space. Every transition of
//! the traversal state machine is stated exactly in the contracts below.

use vstd::prelude::*;

use crate::error::Error;
use crate::order::lex_lt;
use crate::store::copy_bytes;
use crate::store::entries_sorted;
use crate::store::entry_views;
use crate::store::lower_bound;

verus! {

/// A cursor's position within its snapshot.
#[derive(Clone, Copy, PartialEq, Eq, Structural, Debug)]
pub enum Cursor {
    /// Invalid: the cursor moved back past the first entry.
    BeforeFirst,
    /// Valid: the cursor stands on the entry at this index.
    At(usize),
    /// Invalid: the cursor moved forward past the last entry, or the
    /// snapshot is empty.
    AfterLast,
}

/// A cursor over one snapshot of the store.
///
/// Created standing on the first entry. Must be released exactly once by
/// [`DBIterator::destroy`], which consumes the cursor: the type system
/// rules out any use after release.
pub struct DBIterator {
    entries: Vec<(Vec<u8>, Vec<u8>)>,
    cursor: Cursor,
}

impl DBIterator {
    /// The snapshot's entries in ascending key order, as byte strings.
    pub closed spec fn snapshot(&self) -> Seq<(Seq<u8>, Seq<u8>)> {
        entry_views(self.entries@)
    }

    /// The cursor's position.
    pub closed spec fn position(&self) -> Cursor {
        self.cursor
    }

    /// The cursor's invariant: a sorted snapshot and an in-range position.
    pub open spec fn wf(&self) -> bool {
        &&& entries_sorted(self.snapshot())
        &&& (self.position() matches Cursor::At(i) ==> (i as int) < self.snapshot().len())
    }

    /// Builds a cursor over the given entries, standing on the first one.
    pub(crate) fn new(entries: Vec<(Vec<u8>, Vec<u8>)>) -> (it: DBIterator)
        requires
            entries_sorted(entry_views(entries@)),
        ensures
            it.wf(),
            it.snapshot() == entry_views(entries@),
            it.position() == (if entry_views(entries@).len() > 0 {
                Cursor::At(0)
            } else {
                Cursor::AfterLast
            }),
    {
        let cursor = if entries.len() > 0 {
            Cursor::At(0)
        } else {
            Cursor::AfterLast
        };
        DBIterator { entries, cursor }
    }

    /// Whether the cursor stands on an entry. Never moves the cursor.
    pub fn is_valid(&self) -> (r: bool)
        ensures
            r == (self.position() is At),
    {
        match self.cursor {
            Cursor::At(_) => true,
            _ => false,
        }
    }

    /// The key of the entry the cursor stands on.
    pub fn key(&self) -> (r: Vec<u8>)
        requires
            self.wf(),
            self.position() is At,
        ensures
            r@ == self.snapshot()[self.position()->0 as int].0,
    {
        match self.cursor {
            Cursor::At(i) => copy_bytes(self.entries[i].0.as_slice()),
            _ => Vec::new(),
        }
    }

    /// The value of the entry the cursor stands on.
    pub fn value(&self) -> (r: Vec<u8>)
        requires
            self.wf(),
            self.position() is At,
        ensures
            r@ == self.snapshot()[self.position()->0 as int].1,
    {
        match self.cursor {
            Cursor::At(i) => copy_bytes(self.entries[i].1.as_slice()),
            _ => Vec::new(),
        }
    }

    /// Reports the entry the cursor stands on and advances past it; once
    /// the cursor is invalid, reports nothing and stays put. The forward
    /// walk is finite and, once exhausted, yields nothing until re-seeked.
    pub fn next(&mut self) -> (r: Option<(Vec<u8>, Vec<u8>)>)
        requires
            old(self).wf(),
        ensures
            final(self).wf(),
            final(self).snapshot() == old(self).snapshot(),
            (match old(self).position() {
                Cursor::At(i) => {
                    &&& (r matches Some(p) && p.0@ == old(self).snapshot()[i as int].0 && p.1@
                        == old(self).snapshot()[i as int].1)
                    &&& final(self).position() == (if i + 1 < old(self).snapshot().len() {
                        Cursor::At((i + 1) as usize)
                    } else {
                        Cursor::AfterLast
                    })
                },
                _ => r is None && final(self).position() == old(self).position(),
            }),
    {
        match self.cursor {
            Cursor::At(i) => {
                proof {
                    assert(i < self.entries@.len());
                }
                let k = copy_bytes(self.entries[i].0.as_slice());
                let v = copy_bytes(self.entries[i].1.as_slice());
                let n = self.entries.len();
                if i < n - 1 {
                    self.cursor = Cursor::At(i + 1);
                } else {
                    self.cursor = Cursor::AfterLast;
                }
                Some((k, v))
            },
            _ => None,
        }
    }

    /// Moves the cursor one entry back, then reports where it stands.
    ///
    /// The cursor moves before validity is checked. Hence, right after a
    /// `next` that reported entry `i`, the cursor stands past that entry
    /// and `prev` reports entry `i` again: reversing direction does not
    /// resume one entry earlier. From the exhausted end the cursor steps
    /// back onto the last entry; from before the first entry it stays
    /// invalid.
    pub fn prev(&mut self) -> (r: Option<(Vec<u8>, Vec<u8>)>)
        requires
            old(self).wf(),
        ensures
            final(self).wf(),
            final(self).snapshot() == old(self).snapshot(),
            (match old(self).position() {
                Cursor::BeforeFirst => r is None && final(self).position() == Cursor::BeforeFirst,
                Cursor::At(i) => {
                    if i == 0 {
                        r is None && final(self).position() == Cursor::BeforeFirst
                    } else {
                        (r matches Some(p) && p.0@ == old(self).snapshot()[i - 1].0 && p.1@
                            == old(self).snapshot()[i - 1].1) && final(self).position()
                            == Cursor::At((i - 1) as usize)
                    }
                },
                Cursor::AfterLast => {
                    if old(self).snapshot().len() == 0 {
                        r is None && final(self).position() == Cursor::BeforeFirst
                    } else {
                        (r matches Some(p) && p.0@ == old(self).snapshot().last().0 && p.1@
                            == old(self).snapshot().last().1) && final(self).position()
                            == Cursor::At((old(self).snapshot().len() - 1) as usize)
                    }
                },
            }),
    {
        match self.cursor {
            Cursor::BeforeFirst => None,
            Cursor::At(i) => {
                if i == 0 {
                    self.cursor = Cursor::BeforeFirst;
                    None
                } else {
                    self.cursor = Cursor::At(i - 1);
                    let k = copy_bytes(self.entries[i - 1].0.as_slice());
                    let v = copy_bytes(self.entries[i - 1].1.as_slice());
                    Some((k, v))
                }
            },
            Cursor::AfterLast => {
                if self.entries.len() == 0 {
                    self.cursor = Cursor::BeforeFirst;
                    None
                } else {
                    let i = self.entries.len() - 1;
                    self.cursor = Cursor::At(i);
                    let k = copy_bytes(self.entries[i].0.as_slice());
                    let v = copy_bytes(self.entries[i].1.as_slice());
                    Some((k, v))
                }
            },
        }
    }

    /// Moves the cursor to the first entry of the snapshot.
    pub fn seek_to_first(&mut self)
        requires
            old(self).wf(),
        ensures
            final(self).wf(),
            final(self).snapshot() == old(self).snapshot(),
            final(self).position() == (if old(self).snapshot().len() > 0 {
                Cursor::At(0)
            } else {
                Cursor::AfterLast
            }),
    {
        if self.entries.len() > 0 {
            self.cursor = Cursor::At(0);
        } else {
            self.cursor = Cursor::AfterLast;
        }
    }

    /// Moves the cursor to the last entry of the snapshot.
    pub fn seek_to_last(&mut self)
        requires
            old(self).wf(),
        ensures
            final(self).wf(),
            final(self).snapshot() == old(self).snapshot(),
            final(self).position() == (if old(self).snapshot().len() > 0 {
                Cursor::At((old(self).snapshot().len() - 1) as usize)
            } else {
                Cursor::AfterLast
            }),
    {
        if self.entries.len() > 0 {
            self.cursor = Cursor::At(self.entries.len() - 1);
        } else {
            self.cursor = Cursor::AfterLast;
        }
    }

    /// Moves the cursor to the first entry whose key does not sort before
    /// `key`; past the last entry when every key does.
    pub fn seek(&mut self, key: &[u8])
        requires
            old(self).wf(),
        ensures
            final(self).wf(),
            final(self).snapshot() == old(self).snapshot(),
            (match final(self).position() {
                Cursor::At(i) => {
                    &&& !lex_lt(old(self).snapshot()[i as int].0, key@)
                    &&& forall|j: int|
                        0 <= j < i ==> lex_lt((#[trigger] old(self).snapshot()[j]).0, key@)
                },
                Cursor::AfterLast => forall|j: int|
                    0 <= j < old(self).snapshot().len() ==> lex_lt(
                        (#[trigger] old(self).snapshot()[j]).0,
                        key@,
                    ),
                Cursor::BeforeFirst => false,
            }),
    {
        let i = lower_bound(&self.entries, key);
        if i < self.entries.len() {
            self.cursor = Cursor::At(i);
        } else {
            self.cursor = Cursor::AfterLast;
        }
    }

    /// Queries the cursor for a terminal iteration error, independent of
    /// position validity. The snapshot a cursor owns cannot fail mid-walk,
    /// so no error is ever reported; a fault of the native engine belongs
    /// to the shell that queried it and is interpreted by
    /// [`crate::iterator_outcome`].
    pub fn get_error(&self) -> (r: Option<Error>)
        ensures
            r is None,
    {
        None
    }

    /// Releases the cursor. Consuming the cursor makes a second release,
    /// or any use after this one, impossible by construction.
    pub fn destroy(self) {
    }
}

} // verus!
