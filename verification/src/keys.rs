//! The key families of a collection's keyspace, and the document record
//! format.
//!
//! Four key families share one keyspace and are distinguished by shape
//! alone (their lengths differ pairwise):
//! - the reserved metadata key `*metadata*` (10 bytes);
//! - document keys: 16 alphanumeric bytes;
//! - dependency-blob keys: 32 lowercase hex bytes (a content digest);
//! - marker keys: digest ++ `_` ++ document key (49 bytes).
//!
//! A document record value is the canonical text
//! `{"body":<body>,"deps":"<digest>"}`, from which the digest and the body
//! bytes are recovered by fixed-position slicing.

use vstd::prelude::*;

use crate::hash::is_hex_byte;

verus! {

/// Alphanumeric byte: `0-9A-Za-z`. The marker separator `_` (byte 95) is
/// not alphanumeric, and a digest has no `_` either, so marker keys parse
/// unambiguously.
pub open spec fn is_alnum(b: u8) -> bool {
    (48 <= b <= 57) || (65 <= b <= 90) || (97 <= b <= 122)
}

/// The reserved per-collection metadata key, `*metadata*`.
pub open spec fn meta_key() -> Seq<u8> {
    seq![42u8, 109u8, 101u8, 116u8, 97u8, 100u8, 97u8, 116u8, 97u8, 42u8]
}

/// A document key: 16 alphanumeric bytes.
pub open spec fn is_doc_key(k: Seq<u8>) -> bool {
    k.len() == 16 && forall|i: int| 0 <= i < 16 ==> is_alnum(#[trigger] k[i])
}

/// A dependency-blob key: 32 lowercase hex bytes.
pub open spec fn is_blob_key(k: Seq<u8>) -> bool {
    k.len() == 32 && forall|i: int| 0 <= i < 32 ==> is_hex_byte(#[trigger] k[i])
}

/// A marker key: blob key, underscore, document key.
pub open spec fn is_marker_key(k: Seq<u8>) -> bool {
    k.len() == 49 && k[32] == 95 && is_blob_key(k.subrange(0, 32)) && is_doc_key(
        k.subrange(33, 49),
    )
}

/// The blob-key part of a marker key.
pub open spec fn marker_hash(k: Seq<u8>) -> Seq<u8> {
    k.subrange(0, 32)
}

/// The document-key part of a marker key.
pub open spec fn marker_id(k: Seq<u8>) -> Seq<u8> {
    k.subrange(33, 49)
}

/// The marker key for document `id` in dependency group `h`.
pub open spec fn marker_key(h: Seq<u8>, id: Seq<u8>) -> Seq<u8> {
    h + seq![95u8] + id
}

pub proof fn lemma_marker_key_parts(h: Seq<u8>, id: Seq<u8>)
    requires
        is_blob_key(h),
        is_doc_key(id),
    ensures
        is_marker_key(marker_key(h, id)),
        marker_hash(marker_key(h, id)) == h,
        marker_id(marker_key(h, id)) == id,
{
    let k = marker_key(h, id);
    assert(k.subrange(0, 32) =~= h);
    assert(k.subrange(33, 49) =~= id);
    assert(k[32] == 95);
}

/// Build the marker key for `id` in group `h`.
pub fn marker_key_exec(h: &Vec<u8>, id: &Vec<u8>) -> (r: Vec<u8>)
    ensures
        r@ == marker_key(h@, id@),
{
    let mut out: Vec<u8> = Vec::new();
    out.extend_from_slice(h.as_slice());
    out.push(95);
    out.extend_from_slice(id.as_slice());
    proof {
        assert(out@ =~= marker_key(h@, id@));
    }
    out
}

/// A marker key is the marker of its own parts.
pub proof fn lemma_marker_reconstruct(k: Seq<u8>)
    requires
        is_marker_key(k),
    ensures
        k == marker_key(marker_hash(k), marker_id(k)),
{
    assert(k =~= marker_hash(k) + seq![95u8] + marker_id(k));
}

/// The scan prefix for the markers of group `h`: the digest plus `_`.
pub open spec fn marker_prefix(h: Seq<u8>) -> Seq<u8> {
    h + seq![95u8]
}

/// Build the scan prefix for group `h`.
pub fn marker_prefix_exec(h: &Vec<u8>) -> (r: Vec<u8>)
    ensures
        r@ == marker_prefix(h@),
{
    let mut out: Vec<u8> = Vec::new();
    out.extend_from_slice(h.as_slice());
    out.push(95);
    proof {
        assert(out@ =~= marker_prefix(h@));
    }
    out
}

/// Under well-formed shapes, a key has the marker prefix of `h` exactly
/// when it is the marker of some document of group `h`.
pub proof fn lemma_marker_prefix_iff(h: Seq<u8>, k: Seq<u8>)
    requires
        is_blob_key(h),
        is_marker_key(k),
    ensures
        crate::store::has_prefix(k, marker_prefix(h)) <==> marker_hash(k) == h,
{
    if crate::store::has_prefix(k, marker_prefix(h)) {
        assert(k.subrange(0, 33) =~= marker_prefix(h));
        assert(marker_hash(k) =~= k.subrange(0, 33).subrange(0, 32));
        assert(marker_prefix(h).subrange(0, 32) =~= h);
    }
    if marker_hash(k) == h {
        assert(k.subrange(0, 33) =~= marker_prefix(h));
    }
}

/// Build the metadata key.
pub fn meta_key_exec() -> (r: Vec<u8>)
    ensures
        r@ == meta_key(),
{
    let mut out: Vec<u8> = Vec::new();
    out.push(42);
    out.push(109);
    out.push(101);
    out.push(116);
    out.push(97);
    out.push(100);
    out.push(97);
    out.push(116);
    out.push(97);
    out.push(42);
    proof {
        assert(out@ =~= meta_key());
    }
    out
}

// ---------------------------------------------------------------------------
// Document records
// ---------------------------------------------------------------------------

/// `{"body":` — the record prefix.
pub open spec fn rec_prefix() -> Seq<u8> {
    seq![123u8, 34u8, 98u8, 111u8, 100u8, 121u8, 34u8, 58u8]
}

/// `,"deps":"` — between the body and the digest.
pub open spec fn rec_mid() -> Seq<u8> {
    seq![44u8, 34u8, 100u8, 101u8, 112u8, 115u8, 34u8, 58u8, 34u8]
}

/// `"}` — the record suffix.
pub open spec fn rec_suffix() -> Seq<u8> {
    seq![34u8, 125u8]
}

/// The record value for a document with body bytes `b` in group `h`.
pub open spec fn rec_bytes(h: Seq<u8>, b: Seq<u8>) -> Seq<u8> {
    rec_prefix() + b + rec_mid() + h + rec_suffix()
}

/// Whether `v` has the shape of a record value.
pub open spec fn is_rec(v: Seq<u8>) -> bool {
    &&& v.len() >= 51
    &&& v.subrange(0, 8) == rec_prefix()
    &&& v.subrange(v.len() - 43, v.len() - 34) == rec_mid()
    &&& v.subrange(v.len() - 2, v.len() as int) == rec_suffix()
    &&& is_blob_key(rec_hash(v))
}

/// The digest stored in a record value.
pub open spec fn rec_hash(v: Seq<u8>) -> Seq<u8> {
    v.subrange(v.len() - 34, v.len() - 2)
}

/// The body bytes stored in a record value.
pub open spec fn rec_body(v: Seq<u8>) -> Seq<u8> {
    v.subrange(8, v.len() - 43)
}

pub proof fn lemma_rec_parts(h: Seq<u8>, b: Seq<u8>)
    requires
        is_blob_key(h),
    ensures
        rec_hash(rec_bytes(h, b)) == h,
        rec_body(rec_bytes(h, b)) == b,
        is_rec(rec_bytes(h, b)),
{
    let v = rec_bytes(h, b);
    assert(v.len() == 51 + b.len());
    assert(v.subrange(v.len() - 34, v.len() - 2) =~= h);
    assert(v.subrange(8, v.len() - 43) =~= b);
    assert(v.subrange(0, 8) =~= rec_prefix());
    assert(v.subrange(v.len() - 43, v.len() - 34) =~= rec_mid());
    assert(v.subrange(v.len() - 2, v.len() as int) =~= rec_suffix());
}

/// Build the record value for body bytes `b` in group `h`.
pub fn rec_build(h: &Vec<u8>, b: &Vec<u8>) -> (r: Vec<u8>)
    ensures
        r@ == rec_bytes(h@, b@),
{
    let mut out: Vec<u8> = Vec::new();
    out.push(123);
    out.push(34);
    out.push(98);
    out.push(111);
    out.push(100);
    out.push(121);
    out.push(34);
    out.push(58);
    out.extend_from_slice(b.as_slice());
    out.push(44);
    out.push(34);
    out.push(100);
    out.push(101);
    out.push(112);
    out.push(115);
    out.push(34);
    out.push(58);
    out.push(34);
    out.extend_from_slice(h.as_slice());
    out.push(34);
    out.push(125);
    proof {
        assert(out@ =~= rec_bytes(h@, b@));
    }
    out
}

/// Split a record value into its digest and body bytes, checking the shape.
pub fn rec_split(v: &Vec<u8>) -> (r: Option<(Vec<u8>, Vec<u8>)>)
    ensures
        match r {
            Some(p) => is_rec(v@) && p.0@ == rec_hash(v@) && p.1@ == rec_body(v@),
            None => !is_rec(v@),
        },
{
    let n = v.len();
    if n < 51 {
        return None;
    }
    let ok_prefix = v[0] == 123 && v[1] == 34 && v[2] == 98 && v[3] == 111 && v[4] == 100 && v[5]
        == 121 && v[6] == 34 && v[7] == 58;
    if !ok_prefix {
        proof {
            assert(!(v@.subrange(0, 8) =~= rec_prefix()));
        }
        return None;
    }
    let m = n - 43;
    let ok_mid = v[m] == 44 && v[m + 1] == 34 && v[m + 2] == 100 && v[m + 3] == 101 && v[m + 4]
        == 112 && v[m + 5] == 115 && v[m + 6] == 34 && v[m + 7] == 58 && v[m + 8] == 34;
    if !ok_mid {
        proof {
            assert(!(v@.subrange(v@.len() - 43, v@.len() - 34) =~= rec_mid()));
        }
        return None;
    }
    let ok_suffix = v[n - 2] == 34 && v[n - 1] == 125;
    if !ok_suffix {
        proof {
            assert(!(v@.subrange(v@.len() - 2, v@.len() as int) =~= rec_suffix()));
        }
        return None;
    }
    let h = crate::parse::sub_vec(v, n - 34, n - 2);
    let b = crate::parse::sub_vec(v, 8, n - 43);
    let mut k: usize = 0;
    while k < 32
        invariant
            k <= 32,
            h@ == rec_hash(v@),
            h@.len() == 32,
            forall|i: int| 0 <= i < k ==> is_hex_byte(#[trigger] h@[i]),
        decreases 32 - k,
    {
        let c = h[k];
        if !((48 <= c && c <= 57) || (97 <= c && c <= 102)) {
            proof {
                assert(!is_blob_key(rec_hash(v@)));
            }
            return None;
        }
        k = k + 1;
    }
    proof {
        assert(v@.subrange(0, 8) =~= rec_prefix());
        assert(v@.subrange(v@.len() - 43, v@.len() - 34) =~= rec_mid());
        assert(v@.subrange(v@.len() - 2, v@.len() as int) =~= rec_suffix());
        assert(is_blob_key(rec_hash(v@)));
    }
    Some((h, b))
}

} // verus!
