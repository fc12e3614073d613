//! The laws of the store, proved once and for all over the model.
//!
//! Each law is stated over the spec views that the operations' own
//! contracts use, so it composes with them directly: where an operation's
//! `ensures` says how the contents map changed, the law here says what a
//! later operation must therefore observe.

use vstd::prelude::*;

use crate::order::lex_lt;
use crate::store::DB;
use crate::store::apply_batch;
use crate::store::has_key;
use crate::store::lemma_entries_map_at;

verus! {

/// Round-trip identity: a put of `(k, v)` binds `k` to exactly `v`, so a
/// get of `k` with no intervening delete returns exactly the written
/// value, by `get`'s own contract on the resulting contents.
pub proof fn lemma_put_then_get(m: Map<Seq<u8>, Seq<u8>>, k: Seq<u8>, v: Seq<u8>)
    ensures
        m.insert(k, v).dom().contains(k),
        m.insert(k, v)[k] == v,
{
}

/// A deleted key is absent: after a delete of `k` the contents no longer
/// bind `k`, so a get of `k` returns an absent result, not an error, by
/// `get`'s own contract.
pub proof fn lemma_delete_then_get(m: Map<Seq<u8>, Seq<u8>>, k: Seq<u8>)
    ensures
        !m.remove(k).dom().contains(k),
{
}

/// Batch application is atomic and complete: after an applied batch, the
/// key of pair `i` — take the last pair carrying that key — is bound to
/// exactly that pair's value.
pub proof fn lemma_batch_all_visible(
    m: Map<Seq<u8>, Seq<u8>>,
    b: Seq<(Seq<u8>, Seq<u8>)>,
    i: int,
)
    requires
        0 <= i < b.len(),
        forall|j: int| i < j < b.len() ==> (#[trigger] b[j]).0 != b[i].0,
    ensures
        apply_batch(m, b).dom().contains(b[i].0),
        apply_batch(m, b)[b[i].0] == b[i].1,
    decreases b.len(),
{
    if i == b.len() - 1 {
    } else {
        assert(b.drop_last()[i] == b[i]);
        lemma_batch_all_visible(m, b.drop_last(), i);
        assert(b.last().0 != b[i].0);
    }
}

/// An applied batch touches nothing else: a key carried by no pair of the
/// batch keeps exactly the binding, or the absence, it had before.
pub proof fn lemma_batch_preserves_others(
    m: Map<Seq<u8>, Seq<u8>>,
    b: Seq<(Seq<u8>, Seq<u8>)>,
    k: Seq<u8>,
)
    requires
        forall|j: int| 0 <= j < b.len() ==> (#[trigger] b[j]).0 != k,
    ensures
        apply_batch(m, b).dom().contains(k) == m.dom().contains(k),
        m.dom().contains(k) ==> apply_batch(m, b)[k] == m[k],
    decreases b.len(),
{
    if b.len() > 0 {
        lemma_batch_preserves_others(m, b.drop_last(), k);
    }
}

/// A full forward walk is faithful: the entries a cursor yields from the
/// first position to exhaustion carry keys in strictly ascending order —
/// hence without duplicates — each bound in the contents to exactly the
/// value yielded with it, and every key of the contents is among them.
pub proof fn lemma_iteration_ascending(db: DB)
    requires
        db.wf(),
    ensures
        forall|i: int, j: int|
            0 <= i < j < db.entries_view().len() ==> lex_lt(
                (#[trigger] db.entries_view()[i]).0,
                (#[trigger] db.entries_view()[j]).0,
            ),
        forall|i: int|
            0 <= i < db.entries_view().len() ==> db@.dom().contains(
                (#[trigger] db.entries_view()[i]).0,
            ) && db@[db.entries_view()[i].0] == db.entries_view()[i].1,
        forall|k: Seq<u8>| #[trigger] db@.dom().contains(k) ==> has_key(db.entries_view(), k),
{
    assert forall|i: int| 0 <= i < db.entries_view().len() implies db@.dom().contains(
        (#[trigger] db.entries_view()[i]).0,
    ) && db@[db.entries_view()[i].0] == db.entries_view()[i].1 by {
        lemma_entries_map_at(db.entries_view(), i);
    }
}

} // verus!
