//! The database handle and its mathematical model.
//!
//! A handle owns the entries of one open store as an association list kept
//! strictly ascending in byte-lexicographic key order, together with a
//! liveness flag that tracks whether the handle has been closed. The
//! contracts of every operation speak of the model map [`entries_map`] built
//! from that list.

use vstd::prelude::*;

use crate::error::Error;
use crate::iter::Cursor;
use crate::iter::DBIterator;
use crate::options::OpenOption;
use crate::options::ReadOption;
use crate::options::WriteOption;
use crate::options::open_flags;
use crate::order::bytes_eq;
use crate::order::bytes_lt;
use crate::order::lemma_lex_connex;
use crate::order::lemma_lex_irrefl;
use crate::order::lemma_lex_trans;
use crate::order::lex_lt;

verus! {

/// The byte-string views of a list of owned entries.
pub open spec fn entry_views(s: Seq<(Vec<u8>, Vec<u8>)>) -> Seq<(Seq<u8>, Seq<u8>)> {
    Seq::new(s.len(), |i: int| (s[i].0@, s[i].1@))
}

/// The entries are in strictly ascending byte-lexicographic key order.
pub open spec fn entries_sorted(s: Seq<(Seq<u8>, Seq<u8>)>) -> bool {
    forall|i: int, j: int|
        0 <= i < j < s.len() ==> lex_lt(#[trigger] s[i].0, #[trigger] s[j].0)
}

/// Some entry carries the key `k`.
pub open spec fn has_key(s: Seq<(Seq<u8>, Seq<u8>)>, k: Seq<u8>) -> bool {
    exists|i: int| 0 <= i < s.len() && (#[trigger] s[i]).0 == k
}

/// An index of an entry carrying the key `k`; with sorted entries it is
/// the only one.
pub open spec fn key_index(s: Seq<(Seq<u8>, Seq<u8>)>, k: Seq<u8>) -> int {
    choose|i: int| 0 <= i < s.len() && (#[trigger] s[i]).0 == k
}

/// The model of a list of entries: the finite map from each stored key to
/// its value.
pub open spec fn entries_map(s: Seq<(Seq<u8>, Seq<u8>)>) -> Map<Seq<u8>, Seq<u8>> {
    Map::new(|k: Seq<u8>| has_key(s, k), |k: Seq<u8>| s[key_index(s, k)].1)
}

/// The model of applying an ordered batch of puts to a map: each pair is
/// bound in order, so for a repeated key the later pair wins.
pub open spec fn apply_batch(
    m: Map<Seq<u8>, Seq<u8>>,
    b: Seq<(Seq<u8>, Seq<u8>)>,
) -> Map<Seq<u8>, Seq<u8>>
    decreases b.len(),
{
    if b.len() == 0 {
        m
    } else {
        apply_batch(m, b.drop_last()).insert(b.last().0, b.last().1)
    }
}

/// In a sorted entry list, a key occurs at most once.
pub proof fn lemma_sorted_key_unique(s: Seq<(Seq<u8>, Seq<u8>)>, i: int, j: int)
    requires
        entries_sorted(s),
        0 <= i < s.len(),
        0 <= j < s.len(),
        s[i].0 == s[j].0,
    ensures
        i == j,
{
    if i < j {
        assert(lex_lt(s[i].0, s[j].0));
        lemma_lex_irrefl(s[i].0);
    }
    if j < i {
        assert(lex_lt(s[j].0, s[i].0));
        lemma_lex_irrefl(s[i].0);
    }
}

/// The model map reads each sorted entry back exactly.
pub proof fn lemma_entries_map_at(s: Seq<(Seq<u8>, Seq<u8>)>, i: int)
    requires
        entries_sorted(s),
        0 <= i < s.len(),
    ensures
        entries_map(s).dom().contains(s[i].0),
        entries_map(s)[s[i].0] == s[i].1,
{
    assert(has_key(s, s[i].0));
    let j = key_index(s, s[i].0);
    assert(0 <= j < s.len() && s[j].0 == s[i].0);
    lemma_sorted_key_unique(s, i, j);
}

/// Replacing the value at index `i` models an insert of that entry's key.
pub proof fn lemma_entries_update(s: Seq<(Seq<u8>, Seq<u8>)>, i: int, v: Seq<u8>)
    requires
        entries_sorted(s),
        0 <= i < s.len(),
    ensures
        entries_sorted(s.update(i, (s[i].0, v))),
        entries_map(s.update(i, (s[i].0, v))) == entries_map(s).insert(s[i].0, v),
{
    let t = s.update(i, (s[i].0, v));
    assert(forall|m: int| 0 <= m < s.len() ==> (#[trigger] t[m]).0 == s[m].0);
    assert(entries_sorted(t));
    assert forall|k: Seq<u8>| #[trigger]
        entries_map(t).dom().contains(k) == entries_map(s).insert(s[i].0, v).dom().contains(
            k,
        ) by {
        if has_key(t, k) {
            let m = choose|m: int| 0 <= m < t.len() && (#[trigger] t[m]).0 == k;
            assert(s[m].0 == k);
            assert(has_key(s, k));
        }
        if has_key(s, k) {
            let m = choose|m: int| 0 <= m < s.len() && (#[trigger] s[m]).0 == k;
            assert(t[m].0 == k);
            assert(has_key(t, k));
        }
    }
    assert forall|k: Seq<u8>|
        entries_map(t).dom().contains(k) implies #[trigger] entries_map(t)[k]
        == entries_map(s).insert(s[i].0, v)[k] by {
        let m = key_index(t, k);
        assert(0 <= m < t.len() && t[m].0 == k);
        if k == s[i].0 {
            lemma_sorted_key_unique(t, m, i);
            assert(entries_map(t)[k] == v);
        } else {
            assert(m != i);
            assert(t[m] == s[m]);
            lemma_entries_map_at(s, m);
            lemma_sorted_key_unique(t, m, key_index(t, k));
        }
    }
    assert(entries_map(t) =~= entries_map(s).insert(s[i].0, v));
}

/// Inserting an entry between its strict neighbours keeps the list sorted
/// and models an insert into the map.
pub proof fn lemma_entries_insert(s: Seq<(Seq<u8>, Seq<u8>)>, i: int, k: Seq<u8>, v: Seq<u8>)
    requires
        entries_sorted(s),
        0 <= i <= s.len(),
        forall|j: int| 0 <= j < i ==> lex_lt((#[trigger] s[j]).0, k),
        forall|j: int| i <= j < s.len() ==> lex_lt(k, (#[trigger] s[j]).0),
    ensures
        entries_sorted(s.insert(i, (k, v))),
        entries_map(s.insert(i, (k, v))) == entries_map(s).insert(k, v),
{
    let t = s.insert(i, (k, v));
    assert(t.len() == s.len() + 1);
    assert(forall|m: int| 0 <= m < i ==> #[trigger] t[m] == s[m]);
    assert(t[i] == (k, v));
    assert(forall|m: int| i < m < t.len() ==> #[trigger] t[m] == s[m - 1]);
    assert forall|m: int, n: int| 0 <= m < n < t.len() implies lex_lt(
        (#[trigger] t[m]).0,
        (#[trigger] t[n]).0,
    ) by {
        if m < i && n < i {
        } else if m < i && n == i {
        } else if m < i && n > i {
            if m == n - 1 {
                assert(false);
            }
        } else if m == i {
        } else {
        }
    }
    assert forall|k2: Seq<u8>| #[trigger]
        entries_map(t).dom().contains(k2) == entries_map(s).insert(k, v).dom().contains(
            k2,
        ) by {
        if has_key(t, k2) {
            let m = choose|m: int| 0 <= m < t.len() && (#[trigger] t[m]).0 == k2;
            if m < i {
                assert(s[m].0 == k2);
                assert(has_key(s, k2));
            } else if m == i {
                assert(k2 == k);
            } else {
                assert(s[m - 1].0 == k2);
                assert(has_key(s, k2));
            }
        }
        if k2 == k {
            assert(t[i].0 == k2);
            assert(has_key(t, k2));
        } else if has_key(s, k2) {
            let m = choose|m: int| 0 <= m < s.len() && (#[trigger] s[m]).0 == k2;
            if m < i {
                assert(t[m].0 == k2);
            } else {
                assert(t[m + 1].0 == k2);
            }
            assert(has_key(t, k2));
        }
    }
    assert forall|k2: Seq<u8>|
        entries_map(t).dom().contains(k2) implies #[trigger] entries_map(t)[k2]
        == entries_map(s).insert(k, v)[k2] by {
        let m = key_index(t, k2);
        assert(0 <= m < t.len() && t[m].0 == k2);
        if k2 == k {
            lemma_sorted_key_unique(t, m, i);
            assert(entries_map(t)[k2] == v);
        } else {
            assert(m != i);
            if m < i {
                assert(t[m] == s[m]);
                lemma_entries_map_at(s, m);
            } else {
                assert(t[m] == s[m - 1]);
                lemma_entries_map_at(s, m - 1);
            }
        }
    }
    assert(entries_map(t) =~= entries_map(s).insert(k, v));
}

/// Removing the entry at index `i` models a removal of its key from the map.
pub proof fn lemma_entries_remove(s: Seq<(Seq<u8>, Seq<u8>)>, i: int)
    requires
        entries_sorted(s),
        0 <= i < s.len(),
    ensures
        entries_sorted(s.remove(i)),
        entries_map(s.remove(i)) == entries_map(s).remove(s[i].0),
{
    let t = s.remove(i);
    assert(t.len() == s.len() - 1);
    assert(forall|m: int| 0 <= m < i ==> #[trigger] t[m] == s[m]);
    assert(forall|m: int| i <= m < t.len() ==> #[trigger] t[m] == s[m + 1]);
    assert forall|m: int, n: int| 0 <= m < n < t.len() implies lex_lt(
        (#[trigger] t[m]).0,
        (#[trigger] t[n]).0,
    ) by {}
    assert forall|k2: Seq<u8>| #[trigger]
        entries_map(t).dom().contains(k2) == entries_map(s).remove(s[i].0).dom().contains(
            k2,
        ) by {
        if has_key(t, k2) {
            let m = choose|m: int| 0 <= m < t.len() && (#[trigger] t[m]).0 == k2;
            if m < i {
                assert(has_key(s, k2));
                if k2 == s[i].0 {
                    lemma_sorted_key_unique(s, m, i);
                }
            } else {
                assert(s[m + 1].0 == k2);
                assert(has_key(s, k2));
                if k2 == s[i].0 {
                    lemma_sorted_key_unique(s, m + 1, i);
                }
            }
        }
        if has_key(s, k2) && k2 != s[i].0 {
            let m = choose|m: int| 0 <= m < s.len() && (#[trigger] s[m]).0 == k2;
            assert(m != i);
            if m < i {
                assert(t[m].0 == k2);
            } else {
                assert(t[m - 1].0 == k2);
            }
            assert(has_key(t, k2));
        }
    }
    assert forall|k2: Seq<u8>|
        entries_map(t).dom().contains(k2) implies #[trigger] entries_map(t)[k2]
        == entries_map(s).remove(s[i].0)[k2] by {
        let m = key_index(t, k2);
        assert(0 <= m < t.len() && t[m].0 == k2);
        if m < i {
            assert(t[m] == s[m]);
            lemma_entries_map_at(s, m);
        } else {
            assert(t[m] == s[m + 1]);
            lemma_entries_map_at(s, m + 1);
        }
    }
    assert(entries_map(t) =~= entries_map(s).remove(s[i].0));
}

/// Removing a key that no entry carries leaves the model map unchanged.
pub proof fn lemma_remove_absent(s: Seq<(Seq<u8>, Seq<u8>)>, k: Seq<u8>)
    requires
        !has_key(s, k),
    ensures
        entries_map(s).remove(k) == entries_map(s),
{
    assert(entries_map(s).remove(k) =~= entries_map(s));
}

/// Copies a borrowed byte string into an owned one.
pub(crate) fn copy_bytes(src: &[u8]) -> (r: Vec<u8>)
    ensures
        r@ == src@,
{
    let mut r: Vec<u8> = Vec::new();
    let mut i: usize = 0;
    while i < src.len()
        invariant
            i <= src@.len(),
            r@ == src@.take(i as int),
        decreases src@.len() - i,
    {
        r.push(src[i]);
        proof {
            assert(src@.take(i as int).push(src@[i as int]) =~= src@.take(i as int + 1));
        }
        i = i + 1;
    }
    proof {
        assert(src@.take(src@.len() as int) =~= src@);
    }
    r
}

/// Finds the index of the entry carrying `key`, if any.
fn find_key(entries: &Vec<(Vec<u8>, Vec<u8>)>, key: &[u8]) -> (r: Option<usize>)
    ensures
        (match r {
            Option::Some(i) => i < entries@.len() && entry_views(entries@)[i as int].0 == key@,
            Option::None => !has_key(entry_views(entries@), key@),
        }),
{
    let mut i: usize = 0;
    while i < entries.len()
        invariant
            i <= entries@.len(),
            forall|j: int| 0 <= j < i ==> (#[trigger] entry_views(entries@)[j]).0 != key@,
        decreases entries@.len() - i,
    {
        if bytes_eq(entries[i].0.as_slice(), key) {
            return Some(i);
        }
        i = i + 1;
    }
    None
}

/// Finds the first index whose key does not sort before `key`; with sorted
/// entries this is where `key` belongs.
pub(crate) fn lower_bound(entries: &Vec<(Vec<u8>, Vec<u8>)>, key: &[u8]) -> (i: usize)
    ensures
        i <= entries@.len(),
        forall|j: int| 0 <= j < i ==> lex_lt((#[trigger] entry_views(entries@)[j]).0, key@),
        i < entries@.len() ==> !lex_lt(entry_views(entries@)[i as int].0, key@),
{
    let mut i: usize = 0;
    while i < entries.len()
        invariant
            i <= entries@.len(),
            forall|j: int| 0 <= j < i ==> lex_lt((#[trigger] entry_views(entries@)[j]).0, key@),
        decreases entries@.len() - i,
    {
        if !bytes_lt(entries[i].0.as_slice(), key) {
            return i;
        }
        i = i + 1;
    }
    i
}

/// Copies a list of entries; the copy has the same byte-string views.
pub(crate) fn copy_entries(src: &Vec<(Vec<u8>, Vec<u8>)>) -> (r: Vec<(Vec<u8>, Vec<u8>)>)
    ensures
        entry_views(r@) == entry_views(src@),
{
    let mut r: Vec<(Vec<u8>, Vec<u8>)> = Vec::new();
    let mut i: usize = 0;
    while i < src.len()
        invariant
            i <= src@.len(),
            r@.len() == i,
            forall|j: int| 0 <= j < i ==> #[trigger] entry_views(r@)[j] == entry_views(src@)[j],
        decreases src@.len() - i,
    {
        let e = &src[i];
        let k = copy_bytes(e.0.as_slice());
        let v = copy_bytes(e.1.as_slice());
        let ghost r0 = r@;
        r.push((k, v));
        proof {
            assert forall|j: int| 0 <= j < i + 1 implies #[trigger] entry_views(r@)[j]
                == entry_views(src@)[j] by {
                if j < i {
                    assert(r@[j] == r0[j]);
                    assert(entry_views(r0)[j] == entry_views(src@)[j]);
                }
            }
        }
        i = i + 1;
    }
    proof {
        assert(entry_views(r@) =~= entry_views(src@));
    }
    r
}

/// The message of a lifecycle violation on a closed handle.
fn closed_handle_message() -> Vec<u8> {
    copy_bytes("operation on a closed handle".as_bytes())
}

/// The message reported when an open finds no store and may not create one.
fn missing_store_message() -> (r: Vec<u8>)
    ensures
        r@.len() > 0,
{
    let text = "no store at this location and create-if-missing is not set";
    proof {
        broadcast use vstd::string::is_ascii_spec_bytes;

        reveal_strlit("no store at this location and create-if-missing is not set");
        assert(vstd::string::is_ascii(text));
    }
    copy_bytes(text.as_bytes())
}

/// A handle that owns one open connection to a store.
///
/// The handle models the store's contents directly: an association list in
/// strictly ascending key order, read and written under the map view `@`.
/// Closing the handle flips its liveness flag; every later operation is
/// rejected as a usage error without consulting the contents again.
///
/// Each operation takes the option list of its call category. Write and
/// read options configure durability and caching, which never change what
/// a call observes or stores, so the contracts do not mention them; a
/// shell that drives a native engine translates them with
/// [`crate::write_flags`] and [`crate::read_flags`] before the call.
pub struct DB {
    entries: Vec<(Vec<u8>, Vec<u8>)>,
    live: bool,
}

impl View for DB {
    type V = Map<Seq<u8>, Seq<u8>>;

    /// The contents as a map from keys to values.
    open spec fn view(&self) -> Map<Seq<u8>, Seq<u8>> {
        entries_map(self.entries_view())
    }
}

impl DB {
    /// The stored entries in ascending key order, as byte strings.
    pub closed spec fn entries_view(&self) -> Seq<(Seq<u8>, Seq<u8>)> {
        entry_views(self.entries@)
    }

    /// Whether the handle is still open.
    pub closed spec fn is_open(&self) -> bool {
        self.live
    }

    /// The handle's invariant: entries strictly ascending by key.
    pub open spec fn wf(&self) -> bool {
        entries_sorted(self.entries_view())
    }

    /// Opens a connection to the store named `name`.
    ///
    /// The handle models a location at which no store has been persisted
    /// yet: with `CreateIfMissing` among the options the store is created
    /// empty and the open succeeds; without it the open fails the way the
    /// engine fails on a missing store, with a non-empty message. No
    /// resource outlives a failed open.
    pub fn open(name: &str, options: &[OpenOption]) -> (r: Result<DB, Error>)
        ensures
            options@.contains(OpenOption::CreateIfMissing) ==> (r matches Ok(db) && db.wf()
                && db.is_open() && db@ == Map::<Seq<u8>, Seq<u8>>::empty()),
            !options@.contains(OpenOption::CreateIfMissing) ==> (r matches Err(e)
                && e matches Error::OpenFailure(m) && m@.len() > 0),
    {
        let flags = open_flags(options);
        if flags.create_if_missing {
            let db = DB { entries: Vec::new(), live: true };
            proof {
                assert(db@ =~= Map::<Seq<u8>, Seq<u8>>::empty());
            }
            Ok(db)
        } else {
            Err(Error::OpenFailure(missing_store_message()))
        }
    }

    /// Closes the handle. The engine connection is released exactly once:
    /// a repeated close is rejected as a usage error instead of being
    /// forwarded.
    pub fn close(&mut self) -> (r: Result<(), Error>)
        ensures
            final(self).wf() == old(self).wf(),
            final(self)@ == old(self)@,
            old(self).is_open() ==> r is Ok && !final(self).is_open(),
            !old(self).is_open() ==> (r matches Err(e) && e is UsageError) && *final(self)
                == *old(self),
    {
        if !self.live {
            return Err(Error::UsageError(closed_handle_message()));
        }
        self.live = false;
        Ok(())
    }

    /// Binds `value` to `key`, overwriting any previous binding.
    pub fn put(&mut self, key: &[u8], value: &[u8], options: &[WriteOption]) -> (r: Result<
        (),
        Error,
    >)
        requires
            old(self).wf(),
        ensures
            final(self).wf(),
            final(self).is_open() == old(self).is_open(),
            old(self).is_open() ==> r is Ok && final(self)@ == old(self)@.insert(key@, value@),
            !old(self).is_open() ==> (r matches Err(e) && e is UsageError) && *final(self)
                == *old(self),
    {
        if !self.live {
            return Err(Error::UsageError(closed_handle_message()));
        }
        let ghost s = self.entries_view();
        let i = lower_bound(&self.entries, key);
        if i < self.entries.len() && bytes_eq(self.entries[i].0.as_slice(), key) {
            let k = copy_bytes(key);
            let v = copy_bytes(value);
            self.entries[i] = (k, v);
            proof {
                assert(entry_views(self.entries@) =~= s.update(i as int, (s[i as int].0, value@)));
                lemma_entries_update(s, i as int, value@);
            }
        } else {
            proof {
                assert forall|j: int| i <= j < s.len() implies lex_lt(key@, (#[trigger] s[j]).0) by {
                    assert(!lex_lt(s[i as int].0, key@));
                    assert(s[i as int].0 != key@);
                    lemma_lex_connex(s[i as int].0, key@);
                    if j > i {
                        lemma_lex_trans(key@, s[i as int].0, s[j].0);
                    }
                }
            }
            let k = copy_bytes(key);
            let v = copy_bytes(value);
            self.entries.insert(i, (k, v));
            proof {
                assert(entry_views(self.entries@) =~= s.insert(i as int, (key@, value@)));
                lemma_entries_insert(s, i as int, key@, value@);
            }
        }
        Ok(())
    }

    /// Reads the value bound to `key`. A key that was never written, or
    /// was deleted, is reported as an absent result, never as an error.
    pub fn get(&self, key: &[u8], options: &[ReadOption]) -> (r: Result<Option<Vec<u8>>, Error>)
        requires
            self.wf(),
        ensures
            self.is_open() ==> (match r {
                Result::Ok(Option::Some(v)) => self@.dom().contains(key@) && v@ == self@[key@],
                Result::Ok(Option::None) => !self@.dom().contains(key@),
                Result::Err(_) => false,
            }),
            !self.is_open() ==> (r matches Err(e) && e is UsageError),
    {
        if !self.live {
            return Err(Error::UsageError(closed_handle_message()));
        }
        match find_key(&self.entries, key) {
            Some(i) => {
                proof {
                    lemma_entries_map_at(self.entries_view(), i as int);
                }
                Ok(Some(copy_bytes(self.entries[i].1.as_slice())))
            },
            None => Ok(None),
        }
    }

    /// Removes the binding of `key`, if any; removing an absent key
    /// succeeds and changes nothing.
    pub fn delete(&mut self, key: &[u8], options: &[WriteOption]) -> (r: Result<(), Error>)
        requires
            old(self).wf(),
        ensures
            final(self).wf(),
            final(self).is_open() == old(self).is_open(),
            old(self).is_open() ==> r is Ok && final(self)@ == old(self)@.remove(key@),
            !old(self).is_open() ==> (r matches Err(e) && e is UsageError) && *final(self)
                == *old(self),
    {
        if !self.live {
            return Err(Error::UsageError(closed_handle_message()));
        }
        let ghost s = self.entries_view();
        match find_key(&self.entries, key) {
            Some(i) => {
                let _ = self.entries.remove(i);
                proof {
                    assert(entry_views(self.entries@) =~= s.remove(i as int));
                    lemma_entries_remove(s, i as int);
                }
            },
            None => {
                proof {
                    lemma_remove_absent(s, key@);
                }
            },
        }
        Ok(())
    }

    /// Applies an ordered batch of puts as one atomic unit: afterwards
    /// every pair of the batch is bound, later pairs overriding earlier
    /// ones with the same key, and no other binding has changed.
    pub fn write(&mut self, batch: &[(Vec<u8>, Vec<u8>)], options: &[WriteOption]) -> (r: Result<
        (),
        Error,
    >)
        requires
            old(self).wf(),
        ensures
            final(self).wf(),
            final(self).is_open() == old(self).is_open(),
            old(self).is_open() ==> r is Ok && final(self)@ == apply_batch(
                old(self)@,
                entry_views(batch@),
            ),
            !old(self).is_open() ==> (r matches Err(e) && e is UsageError) && *final(self)
                == *old(self),
    {
        if !self.live {
            return Err(Error::UsageError(closed_handle_message()));
        }
        let ghost m0 = self@;
        let ghost b = entry_views(batch@);
        let mut j: usize = 0;
        proof {
            assert(b.take(0) =~= Seq::<(Seq<u8>, Seq<u8>)>::empty());
        }
        while j < batch.len()
            invariant
                j <= batch@.len(),
                b == entry_views(batch@),
                self.wf(),
                self.is_open(),
                self@ == apply_batch(m0, b.take(j as int)),
            decreases batch@.len() - j,
        {
            let e = &batch[j];
            let res = self.put(e.0.as_slice(), e.1.as_slice(), options);
            proof {
                assert(res is Ok);
                assert(b.take(j as int + 1).drop_last() =~= b.take(j as int));
                assert(b.take(j as int + 1).last() == b[j as int]);
            }
            j = j + 1;
        }
        proof {
            assert(b.take(batch@.len() as int) =~= b);
        }
        Ok(())
    }

    /// Creates a cursor over a snapshot of the current contents, standing
    /// on the first entry. The handle must still be open when the cursor
    /// is created; the cursor then owns its snapshot outright.
    pub fn iter(&self, options: &[ReadOption]) -> (it: DBIterator)
        requires
            self.wf(),
            self.is_open(),
        ensures
            it.wf(),
            it.snapshot() == self.entries_view(),
            it.position() == (if self.entries_view().len() > 0 {
                Cursor::At(0)
            } else {
                Cursor::AfterLast
            }),
    {
        DBIterator::new(copy_entries(&self.entries))
    }
}

} // verus!
