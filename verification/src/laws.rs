//! The store's general laws, proved over the state model.
//!
//! Each law is stated against the operation effects (`insert_effect`,
//! `update_effect`, `delete_effect`) and the storage invariants (`wf`) that
//! the collection operations establish, so it holds of every reachable
//! state of a collection. The idempotent no-op update is not restated here:
//! it is an `ensures` of `Collection::update_doc` (an unchanged body and
//! digest leave the contents untouched).

use vstd::prelude::*;

use crate::hash::{digest32, lemma_digest32_shape};
use crate::keys::{is_blob_key, is_doc_key, is_rec, rec_body, rec_hash};
use crate::keys::{lemma_marker_key_parts, lemma_rec_parts, marker_hash, marker_id, marker_key};
use crate::state::{delete_effect, insert_effect, wf, Entries};

verus! {

/// What a read of document `id` yields: its stored body bytes and the
/// shared dependency blob it points at.
pub open spec fn get_doc(m: Entries, id: Seq<u8>) -> Option<(Seq<u8>, Seq<u8>)> {
    if m.dom().contains(id) && is_rec(m[id]) && m.dom().contains(rec_hash(m[id])) {
        Some((rec_body(m[id]), m[rec_hash(m[id])]))
    } else {
        None
    }
}

/// Round trip: reading a freshly inserted document reproduces exactly the
/// body and dependency bytes that were stored, provided the dependency
/// digest does not collide with a blob of different content (a collision
/// silently merges two dependency groups and is assumed away).
pub proof fn lemma_insert_round_trip(m: Entries, id: Seq<u8>, body_b: Seq<u8>, deps_b: Seq<u8>)
    requires
        is_doc_key(id),
        !m.dom().contains(id),
        m.dom().contains(digest32(deps_b)) ==> m[digest32(deps_b)] == deps_b,
    ensures
        get_doc(insert_effect(m, id, body_b, deps_b), id) == Some((body_b, deps_b)),
{
    let h = digest32(deps_b);
    let m2 = insert_effect(m, id, body_b, deps_b);
    lemma_digest32_shape(deps_b);
    assert(is_blob_key(h));
    lemma_rec_parts(h, body_b);
    lemma_marker_key_parts(h, id);
    assert(m2[id] == crate::keys::rec_bytes(h, body_b));
    assert(m2.dom().contains(h));
    assert(m2[h] == deps_b);
}

/// Deduplication: inserting a second document with dependencies of the
/// same canonical bytes adds no blob — the set of blob keys is unchanged.
pub proof fn lemma_dedup_one_blob(
    m: Entries,
    id1: Seq<u8>,
    id2: Seq<u8>,
    b1: Seq<u8>,
    b2: Seq<u8>,
    deps_b: Seq<u8>,
)
    requires
        is_doc_key(id1),
        is_doc_key(id2),
        !m.dom().contains(id1),
        id1 != id2,
        !m.dom().contains(id2),
    ensures
        ({
            let m2 = insert_effect(m, id1, b1, deps_b);
            let m3 = insert_effect(m2, id2, b2, deps_b);
            forall|k: Seq<u8>|
                is_blob_key(k) ==> (#[trigger] m3.dom().contains(k) <==> m2.dom().contains(k))
        }),
{
    let h = digest32(deps_b);
    let m2 = insert_effect(m, id1, b1, deps_b);
    let m3 = insert_effect(m2, id2, b2, deps_b);
    lemma_digest32_shape(deps_b);
    assert(is_blob_key(h));
    lemma_marker_key_parts(h, id1);
    lemma_marker_key_parts(h, id2);
    assert(m2.dom().contains(h));
    assert forall|k: Seq<u8>| is_blob_key(k) implies (#[trigger] m3.dom().contains(k)
        <==> m2.dom().contains(k)) by {
        assert(k.len() == 32);
        assert(k != id2 && k != marker_key(h, id2));
    }
}

/// Deduplication, second half: deleting one of two documents that share a
/// dependency group keeps the shared blob, and the other document still
/// reads back unchanged.
pub proof fn lemma_dedup_delete_keeps_blob(m: Entries, id1: Seq<u8>, id2: Seq<u8>)
    requires
        wf(m),
        is_doc_key(id1),
        is_doc_key(id2),
        id1 != id2,
        m.dom().contains(id1),
        m.dom().contains(id2),
        rec_hash(m[id1]) == rec_hash(m[id2]),
    ensures
        !crate::collection::Collection::last_member(m, id1),
        ({
            let m4 = delete_effect(m, id1, false);
            &&& m4.dom().contains(rec_hash(m[id2]))
            &&& get_doc(m4, id2) == get_doc(m, id2)
        }),
{
    let h = rec_hash(m[id1]);
    assert(m.dom().contains(id1));
    assert(crate::state::doc_ok(m, id1));
    assert(crate::state::doc_ok(m, id2));
    assert(is_blob_key(h));
    lemma_marker_key_parts(h, id1);
    lemma_marker_key_parts(h, id2);
    assert(m.dom().contains(marker_key(h, id2)));
    assert(!crate::collection::Collection::last_member(m, id1)) by {
        if crate::collection::Collection::last_member(m, id1) {
            assert(marker_id(marker_key(h, id2)) == id1);
        }
    }
    let m4 = delete_effect(m, id1, false);
    assert(m4[id2] == m[id2]);
    assert(m4.dom().contains(h));
    assert(m4[h] == m[h]);
}

/// Garbage collection: deleting the last document of a dependency group
/// removes the group's blob along with the record and marker.
pub proof fn lemma_gc_removes_blob(m: Entries, id: Seq<u8>)
    requires
        wf(m),
        is_doc_key(id),
        m.dom().contains(id),
        crate::collection::Collection::last_member(m, id),
    ensures
        ({
            let m4 = delete_effect(m, id, true);
            &&& !m4.dom().contains(id)
            &&& !m4.dom().contains(rec_hash(m[id]))
            &&& get_doc(m4, id) is None
        }),
{
    let h = rec_hash(m[id]);
    assert(crate::state::doc_ok(m, id));
    assert(is_blob_key(h));
    lemma_marker_key_parts(h, id);
}

/// Membership isolation: a document whose record points at one dependency
/// group has no marker under any other group, so a subcollection bound to
/// a different dependency value reports it `NotFound` even though the
/// collection itself can read it.
pub proof fn lemma_membership_isolation(m: Entries, id: Seq<u8>, other: Seq<u8>)
    requires
        wf(m),
        m.dom().contains(id),
        is_doc_key(id),
        is_blob_key(other),
        rec_hash(m[id]) != other,
    ensures
        !m.dom().contains(marker_key(other, id)),
        get_doc(m, id) is Some,
{
    assert(crate::state::doc_ok(m, id));
    lemma_marker_key_parts(other, id);
    if m.dom().contains(marker_key(other, id)) {
        assert(crate::state::marker_ok(m, marker_key(other, id)));
        assert(marker_id(marker_key(other, id)) == id);
        assert(marker_hash(marker_key(other, id)) == other);
    }
}

} // verus!
