//! The storage invariants of a collection's keyspace, and the effect of
//! each mutating operation on it.
//!
//! `wf` states the invariants that hold after every committed operation:
//! every key belongs to one of the four families; every document record
//! points at an existing dependency blob and owns exactly its one marker;
//! every marker points back at a document whose record carries the marker's
//! digest; and every blob is content-addressed (its key is the digest of
//! its bytes). A blob with no remaining markers may linger after an update
//! reassigns a document's dependencies: only deletion collects garbage.

use vstd::prelude::*;

use crate::hash::{digest32, lemma_digest32_shape};
use crate::keys::{is_blob_key, is_doc_key, is_marker_key, meta_key};
use crate::keys::{is_rec, rec_bytes, rec_hash};
use crate::keys::{lemma_marker_key_parts, lemma_rec_parts};
use crate::keys::{marker_hash, marker_id, marker_key};

verus! {

/// The contents of one collection's keyspace.
pub type Entries = Map<Seq<u8>, Seq<u8>>;

/// Every key belongs to one of the four key families.
pub open spec fn key_shape_ok(k: Seq<u8>) -> bool {
    k == meta_key() || is_doc_key(k) || is_blob_key(k) || is_marker_key(k)
}

/// A document record is well-linked: its value has record shape, the blob
/// it points at exists, and its own marker exists.
pub open spec fn doc_ok(m: Entries, id: Seq<u8>) -> bool {
    &&& is_rec(m[id])
    &&& m.dom().contains(rec_hash(m[id]))
    &&& m.dom().contains(marker_key(rec_hash(m[id]), id))
}

/// A marker points back at a live document whose record carries the
/// marker's digest; so no marker of any other digest references that
/// document.
pub open spec fn marker_ok(m: Entries, mk: Seq<u8>) -> bool {
    &&& m.dom().contains(marker_id(mk))
    &&& is_rec(m[marker_id(mk)])
    &&& rec_hash(m[marker_id(mk)]) == marker_hash(mk)
}

/// The storage invariants of a collection's keyspace.
pub open spec fn wf(m: Entries) -> bool {
    &&& m.dom().contains(meta_key())
    &&& forall|k: Seq<u8>| #[trigger] m.dom().contains(k) ==> key_shape_ok(k)
    &&& forall|k: Seq<u8>| #[trigger] m.dom().contains(k) && is_doc_key(k) ==> doc_ok(m, k)
    &&& forall|k: Seq<u8>| #[trigger] m.dom().contains(k) && is_marker_key(k) ==> marker_ok(m, k)
    &&& forall|k: Seq<u8>| #[trigger] m.dom().contains(k) && is_blob_key(k) ==> digest32(m[k]) == k
}

/// The state after inserting a document: the record is written, the blob
/// is written only if its digest key was absent, and the marker is set.
pub open spec fn insert_effect(m: Entries, id: Seq<u8>, body_b: Seq<u8>, deps_b: Seq<u8>) -> Entries {
    let h = digest32(deps_b);
    let m1 = if m.dom().contains(h) {
        m
    } else {
        m.insert(h, deps_b)
    };
    m1.insert(id, rec_bytes(h, body_b)).insert(marker_key(h, id), Seq::empty())
}

/// The state after updating a document: the record is rewritten; when the
/// dependency digest changes, the old marker is dropped, the new blob is
/// written only if absent, and the new marker is set. The old blob is never
/// collected here.
pub open spec fn update_effect(m: Entries, id: Seq<u8>, body_b: Seq<u8>, deps_b: Seq<u8>) -> Entries {
    let h0 = rec_hash(m[id]);
    let h = digest32(deps_b);
    if h == h0 {
        m.insert(id, rec_bytes(h, body_b))
    } else {
        let m1 = if m.dom().contains(h) {
            m
        } else {
            m.insert(h, deps_b)
        };
        m1.insert(id, rec_bytes(h, body_b)).insert(marker_key(h, id), Seq::empty()).remove(
            marker_key(h0, id),
        )
    }
}

/// The state after deleting a document: record and marker go; the blob goes
/// too when no other document references it (`gc`).
pub open spec fn delete_effect(m: Entries, id: Seq<u8>, gc: bool) -> Entries {
    let h = rec_hash(m[id]);
    let m1 = m.remove(marker_key(h, id)).remove(id);
    if gc {
        m1.remove(h)
    } else {
        m1
    }
}

/// Writing a content-addressed blob preserves the invariants: the write is
/// idempotent at its digest key and constrains nothing else.
pub proof fn lemma_blob_write_wf(m: Entries, deps_b: Seq<u8>)
    requires
        wf(m),
        !m.dom().contains(digest32(deps_b)),
    ensures
        wf(m.insert(digest32(deps_b), deps_b)),
{
    let h = digest32(deps_b);
    let m2 = m.insert(h, deps_b);
    lemma_digest32_shape(deps_b);
    assert(is_blob_key(h));
    assert forall|k: Seq<u8>| #[trigger] m2.dom().contains(k) implies key_shape_ok(k) by {
        if k != h {
            assert(m.dom().contains(k));
        }
    }
    assert forall|k: Seq<u8>| #[trigger] m2.dom().contains(k) && is_doc_key(k) implies doc_ok(
        m2,
        k,
    ) by {
        assert(m.dom().contains(k));
        assert(doc_ok(m, k));
        assert(m2[k] == m[k]);
    }
    assert forall|k: Seq<u8>| #[trigger] m2.dom().contains(k) && is_marker_key(k) implies marker_ok(
        m2,
        k,
    ) by {
        assert(m.dom().contains(k));
        assert(marker_ok(m, k));
        assert(m2[marker_id(k)] == m[marker_id(k)]);
    }
    assert forall|k: Seq<u8>| #[trigger] m2.dom().contains(k) && is_blob_key(k) implies digest32(
        m2[k],
    ) == k by {
        if k != h {
            assert(m.dom().contains(k));
            assert(m2[k] == m[k]);
        }
    }
    assert(m2.dom().contains(meta_key()));
}

/// Inserting a fresh document preserves the invariants.
pub proof fn lemma_insert_wf(m: Entries, id: Seq<u8>, body_b: Seq<u8>, deps_b: Seq<u8>)
    requires
        wf(m),
        is_doc_key(id),
        !m.dom().contains(id),
    ensures
        wf(insert_effect(m, id, body_b, deps_b)),
{
    let h = digest32(deps_b);
    let mk = marker_key(h, id);
    let m2 = insert_effect(m, id, body_b, deps_b);
    lemma_digest32_shape(deps_b);
    assert(is_blob_key(h));
    lemma_marker_key_parts(h, id);
    lemma_rec_parts(h, body_b);
    assert forall|k: Seq<u8>| #[trigger] m2.dom().contains(k) implies key_shape_ok(k) by {
        if k != id && k != mk && k != h {
            assert(m.dom().contains(k));
        }
    }
    assert forall|k: Seq<u8>| #[trigger] m2.dom().contains(k) && is_doc_key(k) implies doc_ok(
        m2,
        k,
    ) by {
        if k == id {
            assert(m2[id] == rec_bytes(h, body_b));
            assert(m2.dom().contains(h));
            assert(m2.dom().contains(mk));
        } else {
            assert(m.dom().contains(k));
            assert(doc_ok(m, k));
            assert(m2[k] == m[k]);
            assert(m2.dom().contains(rec_hash(m[k])));
            assert(m2.dom().contains(marker_key(rec_hash(m[k]), k)));
        }
    }
    assert forall|k: Seq<u8>| #[trigger] m2.dom().contains(k) && is_marker_key(k) implies marker_ok(
        m2,
        k,
    ) by {
        if k == mk {
            assert(marker_id(k) == id && marker_hash(k) == h);
            assert(m2[id] == rec_bytes(h, body_b));
        } else {
            assert(m.dom().contains(k));
            assert(marker_ok(m, k));
            assert(marker_id(k) != id);
            assert(m2[marker_id(k)] == m[marker_id(k)]);
        }
    }
    assert forall|k: Seq<u8>| #[trigger] m2.dom().contains(k) && is_blob_key(k) implies digest32(
        m2[k],
    ) == k by {
        if k == h {
            if m.dom().contains(h) {
                assert(m2[h] == m[h]);
            } else {
                assert(m2[h] == deps_b);
            }
        } else {
            assert(m.dom().contains(k));
            assert(m2[k] == m[k]);
        }
    }
    assert(m2.dom().contains(meta_key()));
}

/// Updating a live document preserves the invariants.
pub proof fn lemma_update_wf(m: Entries, id: Seq<u8>, body_b: Seq<u8>, deps_b: Seq<u8>)
    requires
        wf(m),
        is_doc_key(id),
        m.dom().contains(id),
    ensures
        wf(update_effect(m, id, body_b, deps_b)),
{
    let h0 = rec_hash(m[id]);
    let h = digest32(deps_b);
    let m2 = update_effect(m, id, body_b, deps_b);
    lemma_digest32_shape(deps_b);
    assert(is_blob_key(h));
    lemma_marker_key_parts(h, id);
    lemma_rec_parts(h, body_b);
    assert(doc_ok(m, id));
    lemma_marker_key_parts(h0, id);
    if h == h0 {
        assert forall|k: Seq<u8>| #[trigger] m2.dom().contains(k) implies key_shape_ok(k) by {
            if k != id {
                assert(m.dom().contains(k));
            }
        }
        assert forall|k: Seq<u8>| #[trigger] m2.dom().contains(k) && is_doc_key(k) implies doc_ok(
            m2,
            k,
        ) by {
            if k == id {
                assert(m2[id] == rec_bytes(h, body_b));
            } else {
                assert(doc_ok(m, k));
                assert(m2[k] == m[k]);
            }
        }
        assert forall|k: Seq<u8>|
            #[trigger] m2.dom().contains(k) && is_marker_key(k) implies marker_ok(m2, k) by {
            assert(m.dom().contains(k));
            assert(marker_ok(m, k));
            if marker_id(k) == id {
                assert(marker_hash(k) == h0);
                assert(m2[id] == rec_bytes(h, body_b));
                assert(rec_hash(m2[id]) == h);
            } else {
                assert(m2[marker_id(k)] == m[marker_id(k)]);
            }
        }
        assert forall|k: Seq<u8>| #[trigger] m2.dom().contains(k) && is_blob_key(k) implies
            digest32(m2[k]) == k by {
            assert(m.dom().contains(k));
            assert(m2[k] == m[k]);
        }
    } else {
        let mk_new = marker_key(h, id);
        let mk_old = marker_key(h0, id);
        assert(mk_new != mk_old) by {
            assert(marker_hash(mk_new) == h && marker_hash(mk_old) == h0);
        }
        assert forall|k: Seq<u8>| #[trigger] m2.dom().contains(k) implies key_shape_ok(k) by {
            if k != id && k != mk_new && k != h {
                assert(m.dom().contains(k));
            }
        }
        assert forall|k: Seq<u8>| #[trigger] m2.dom().contains(k) && is_doc_key(k) implies doc_ok(
            m2,
            k,
        ) by {
            if k == id {
                assert(m2[id] == rec_bytes(h, body_b));
                assert(m2.dom().contains(h));
                assert(m2.dom().contains(mk_new));
            } else {
                assert(m.dom().contains(k));
                assert(doc_ok(m, k));
                assert(m2[k] == m[k]);
                assert(marker_key(rec_hash(m[k]), k) != mk_old) by {
                    lemma_marker_key_parts(rec_hash(m[k]), k);
                }
                assert(m2.dom().contains(marker_key(rec_hash(m[k]), k)));
            }
        }
        assert forall|k: Seq<u8>|
            #[trigger] m2.dom().contains(k) && is_marker_key(k) implies marker_ok(m2, k) by {
            if k == mk_new {
                assert(marker_id(k) == id && marker_hash(k) == h);
                assert(m2[id] == rec_bytes(h, body_b));
            } else {
                assert(m.dom().contains(k));
                assert(marker_ok(m, k));
                if marker_id(k) == id {
                    assert(marker_hash(k) == h0);
                    crate::keys::lemma_marker_reconstruct(k);
                    assert(k == mk_old);
                    assert(false);
                } else {
                    assert(m2[marker_id(k)] == m[marker_id(k)]);
                }
            }
        }
        assert forall|k: Seq<u8>| #[trigger] m2.dom().contains(k) && is_blob_key(k) implies
            digest32(m2[k]) == k by {
            if k == h {
                if m.dom().contains(h) {
                    assert(m2[h] == m[h]);
                } else {
                    assert(m2[h] == deps_b);
                }
            } else {
                assert(m.dom().contains(k));
                assert(m2[k] == m[k]);
            }
        }
    }
    assert(m2.dom().contains(meta_key()));
}

/// Deleting a document preserves the invariants, provided the blob is
/// collected only when no other document references it.
pub proof fn lemma_delete_wf(m: Entries, id: Seq<u8>, gc: bool)
    requires
        wf(m),
        is_doc_key(id),
        m.dom().contains(id),
        gc ==> forall|mk: Seq<u8>|
            #[trigger] m.dom().contains(mk) && is_marker_key(mk) && marker_hash(mk) == rec_hash(
                m[id],
            ) ==> marker_id(mk) == id,
    ensures
        wf(delete_effect(m, id, gc)),
{
    let h = rec_hash(m[id]);
    let mk_own = marker_key(h, id);
    let m2 = delete_effect(m, id, gc);
    assert(doc_ok(m, id));
    assert(is_blob_key(h));
    lemma_marker_key_parts(h, id);
    assert forall|k: Seq<u8>| #[trigger] m2.dom().contains(k) implies key_shape_ok(k) by {
        assert(m.dom().contains(k));
    }
    assert forall|k: Seq<u8>| #[trigger] m2.dom().contains(k) && is_doc_key(k) implies doc_ok(
        m2,
        k,
    ) by {
        assert(m.dom().contains(k));
        assert(doc_ok(m, k));
        assert(k != id);
        assert(m2[k] == m[k]);
        let hk = rec_hash(m[k]);
        lemma_marker_key_parts(hk, k);
        assert(marker_key(hk, k) != mk_own);
        if gc && hk == h {
            assert(m.dom().contains(marker_key(hk, k)));
            assert(marker_id(marker_key(hk, k)) == id);
            assert(false);
        }
        assert(m2.dom().contains(hk));
        assert(m2.dom().contains(marker_key(hk, k)));
    }
    assert forall|k: Seq<u8>| #[trigger] m2.dom().contains(k) && is_marker_key(k) implies marker_ok(
        m2,
        k,
    ) by {
        assert(m.dom().contains(k));
        assert(marker_ok(m, k));
        assert(k != mk_own);
        if marker_id(k) == id {
            assert(marker_hash(k) == h);
            crate::keys::lemma_marker_reconstruct(k);
            assert(k == mk_own);
            assert(false);
        }
        assert(m2[marker_id(k)] == m[marker_id(k)]);
    }
    assert forall|k: Seq<u8>| #[trigger] m2.dom().contains(k) && is_blob_key(k) implies digest32(
        m2[k],
    ) == k by {
        assert(m.dom().contains(k));
        assert(m2[k] == m[k]);
    }
    assert(m2.dom().contains(meta_key()));
}

} // verus!
