//! The JSON value model and its canonical serialization.
//!
//! `Json` is the executable value type; `JsonM` is its mathematical model
//! (the view), over which all contracts are stated. Strings hold decoded
//! UTF-8 bytes; numbers hold their source lexeme verbatim; object members
//! are kept strictly sorted by byte-wise lexicographic key order with unique
//! keys. Two structurally equal values (same members under any key ordering
//! at the source level) are therefore equal models and serialize to
//! identical bytes, which is what makes content addressing of dependency
//! values canonical.

use vstd::prelude::*;

verus! {

broadcast use vstd::std_specs::vec::group_vec_axioms;

/// A JSON value in canonical form.
pub enum Json {
    Null,
    Bool(bool),
    Num(Vec<u8>),
    Str(Vec<u8>),
    Arr(Vec<Json>),
    Obj(Vec<(Vec<u8>, Json)>),
}

/// The mathematical model of a JSON value.
pub enum JsonM {
    Null,
    Bool(bool),
    Num(Seq<u8>),
    Str(Seq<u8>),
    Arr(Seq<JsonM>),
    Obj(Seq<(Seq<u8>, JsonM)>),
}

/// The model of a value.
pub open spec fn jview(j: Json) -> JsonM
    decreases j,
{
    match j {
        Json::Null => JsonM::Null,
        Json::Bool(b) => JsonM::Bool(b),
        Json::Num(l) => JsonM::Num(l@),
        Json::Str(s) => JsonM::Str(s@),
        Json::Arr(items) => JsonM::Arr(jview_list(items@)),
        Json::Obj(ms) => JsonM::Obj(jview_members(ms@)),
    }
}

/// The models of a list of values.
pub open spec fn jview_list(items: Seq<Json>) -> Seq<JsonM>
    decreases items,
{
    if items.len() == 0 {
        Seq::empty()
    } else {
        jview_list(items.drop_last()).push(jview(items.last()))
    }
}

/// The models of a list of object members.
pub open spec fn jview_members(ms: Seq<(Vec<u8>, Json)>) -> Seq<(Seq<u8>, JsonM)>
    decreases ms,
{
    if ms.len() == 0 {
        Seq::empty()
    } else {
        jview_members(ms.drop_last()).push((ms.last().0@, jview(ms.last().1)))
    }
}

impl View for Json {
    type V = JsonM;

    open spec fn view(&self) -> JsonM {
        jview(*self)
    }
}

pub broadcast proof fn lemma_jview_list_elems(items: Seq<Json>)
    ensures
        #[trigger] jview_list(items).len() == items.len(),
        forall|i: int| 0 <= i < items.len() ==> jview_list(items)[i] == jview(#[trigger] items[i]),
    decreases items,
{
    if items.len() > 0 {
        lemma_jview_list_elems(items.drop_last());
        assert forall|i: int| 0 <= i < items.len() implies jview_list(items)[i] == jview(
            #[trigger] items[i],
        ) by {
            if i < items.len() - 1 {
                assert(items.drop_last()[i] == items[i]);
            } else {
                assert(items.last() == items[i]);
            }
        }
    }
}

pub broadcast proof fn lemma_jview_members_elems(ms: Seq<(Vec<u8>, Json)>)
    ensures
        #[trigger] jview_members(ms).len() == ms.len(),
        forall|i: int|
            0 <= i < ms.len() ==> jview_members(ms)[i] == ((#[trigger] ms[i]).0@, jview(ms[i].1)),
    decreases ms,
{
    if ms.len() > 0 {
        lemma_jview_members_elems(ms.drop_last());
        assert forall|i: int|
            0 <= i < ms.len() implies jview_members(ms)[i] == ((#[trigger] ms[i]).0@, jview(
            ms[i].1,
        )) by {
            if i < ms.len() - 1 {
                assert(ms.drop_last()[i] == ms[i]);
            } else {
                assert(ms.last() == ms[i]);
            }
        }
    }
}

// ---------------------------------------------------------------------------
// Byte-wise lexicographic order on keys
// ---------------------------------------------------------------------------

/// Strict byte-wise lexicographic order, starting the comparison at `i`.
pub open spec fn lex_lt_from(a: Seq<u8>, b: Seq<u8>, i: int) -> bool
    decreases a.len() - i,
{
    if i >= b.len() {
        false
    } else if i >= a.len() {
        true
    } else if a[i] < b[i] {
        true
    } else if a[i] > b[i] {
        false
    } else {
        lex_lt_from(a, b, i + 1)
    }
}

/// Strict byte-wise lexicographic order.
pub open spec fn lex_lt(a: Seq<u8>, b: Seq<u8>) -> bool {
    lex_lt_from(a, b, 0)
}

pub proof fn lemma_lex_from_trichotomy(a: Seq<u8>, b: Seq<u8>, i: int)
    requires
        0 <= i <= a.len(),
        0 <= i <= b.len(),
        a.subrange(0, i) =~= b.subrange(0, i),
    ensures
        lex_lt_from(a, b, i) || lex_lt_from(b, a, i) || a =~= b,
    decreases a.len() - i,
{
    if i >= a.len() && i >= b.len() {
        assert(a =~= a.subrange(0, i));
        assert(b =~= b.subrange(0, i));
    } else if i < a.len() && i < b.len() && a[i] == b[i] {
        assert(a.subrange(0, i + 1) =~= b.subrange(0, i + 1));
        lemma_lex_from_trichotomy(a, b, i + 1);
    }
}

/// One of `a < b`, `a == b`, `b < a` holds.
pub proof fn lemma_lex_trichotomy(a: Seq<u8>, b: Seq<u8>)
    ensures
        lex_lt(a, b) || lex_lt(b, a) || a =~= b,
{
    assert(a.subrange(0, 0) =~= b.subrange(0, 0));
    lemma_lex_from_trichotomy(a, b, 0);
}

pub proof fn lemma_lex_from_irrefl(a: Seq<u8>, i: int)
    ensures
        !lex_lt_from(a, a, i),
    decreases a.len() - i,
{
    if i < a.len() {
        lemma_lex_from_irrefl(a, i + 1);
    }
}

pub proof fn lemma_lex_from_asym(a: Seq<u8>, b: Seq<u8>, i: int)
    ensures
        !(lex_lt_from(a, b, i) && lex_lt_from(b, a, i)),
    decreases a.len() - i,
{
    if i < a.len() && i < b.len() && a[i] == b[i] {
        lemma_lex_from_asym(a, b, i + 1);
    }
}

/// Whether `a < b` in strict byte-wise lexicographic order.
pub fn bytes_lt(a: &Vec<u8>, b: &Vec<u8>) -> (r: bool)
    ensures
        r == lex_lt(a@, b@),
{
    let mut i: usize = 0;
    while i < a.len() && i < b.len()
        invariant
            i <= a@.len(),
            i <= b@.len(),
            lex_lt(a@, b@) == lex_lt_from(a@, b@, i as int),
        decreases a@.len() - i,
    {
        if a[i] < b[i] {
            return true;
        }
        if a[i] > b[i] {
            return false;
        }
        i = i + 1;
    }
    i < b.len()
}

// ---------------------------------------------------------------------------
// Object member operations
// ---------------------------------------------------------------------------

/// Insert `(k, v)` into a member list, keeping keys sorted and unique;
/// an existing member with the same key is replaced.
pub open spec fn obj_insert(ms: Seq<(Seq<u8>, JsonM)>, k: Seq<u8>, v: JsonM) -> Seq<
    (Seq<u8>, JsonM),
>
    decreases ms.len(),
{
    if ms.len() == 0 {
        seq![(k, v)]
    } else if lex_lt(k, ms[0].0) {
        seq![(k, v)] + ms
    } else if k == ms[0].0 {
        seq![(k, v)] + ms.drop_first()
    } else {
        seq![ms[0]] + obj_insert(ms.drop_first(), k, v)
    }
}

/// The value of the member with key `k`, if any.
pub open spec fn obj_get(ms: Seq<(Seq<u8>, JsonM)>, k: Seq<u8>) -> Option<JsonM>
    decreases ms.len(),
{
    if ms.len() == 0 {
        None
    } else if ms[0].0 == k {
        Some(ms[0].1)
    } else {
        obj_get(ms.drop_first(), k)
    }
}

proof fn lemma_obj_insert_at(ms: Seq<(Seq<u8>, JsonM)>, k: Seq<u8>, v: JsonM, i: int)
    requires
        0 <= i <= ms.len(),
        forall|j: int| 0 <= j < i ==> lex_lt((#[trigger] ms[j]).0, k),
        i < ms.len() ==> !lex_lt(ms[i].0, k),
    ensures
        obj_insert(ms, k, v) == if i < ms.len() && ms[i].0 == k {
            ms.update(i, (k, v))
        } else {
            ms.insert(i, (k, v))
        },
    decreases i,
{
    if i == 0 {
        if ms.len() == 0 {
            assert(obj_insert(ms, k, v) =~= ms.insert(0, (k, v)));
        } else {
            lemma_lex_trichotomy(k, ms[0].0);
            if lex_lt(k, ms[0].0) {
                assert(obj_insert(ms, k, v) =~= ms.insert(0, (k, v)));
            } else if k =~= ms[0].0 {
                assert(obj_insert(ms, k, v) =~= ms.update(0, (k, v)));
            }
        }
    } else {
        assert(lex_lt(ms[0].0, k));
        lemma_lex_from_asym(k, ms[0].0, 0);
        lemma_lex_from_irrefl(k, 0);
        assert(k != ms[0].0) by {
            if k == ms[0].0 {
                assert(lex_lt(k, k));
            }
        }
        let rest = ms.drop_first();
        assert(forall|j: int| 0 <= j < i - 1 ==> lex_lt((#[trigger] rest[j]).0, k));
        lemma_obj_insert_at(rest, k, v, i - 1);
        if i < ms.len() && ms[i].0 == k {
            assert(obj_insert(ms, k, v) =~= ms.update(i, (k, v)));
        } else {
            assert(obj_insert(ms, k, v) =~= ms.insert(i, (k, v)));
        }
    }
}

/// Insert `(k, v)` in place, keeping keys sorted and unique.
pub fn obj_insert_exec(ms: &mut Vec<(Vec<u8>, Json)>, k: Vec<u8>, v: Json)
    ensures
        jview_members(final(ms)@) == obj_insert(jview_members(old(ms)@), k@, v@),
{
    let ghost k0 = k;
    let ghost v0 = v;
    let mut i: usize = 0;
    loop
        invariant_except_break
            i <= ms@.len(),
            ms@ == old(ms)@,
            k == k0,
            v == v0,
            forall|j: int| 0 <= j < i ==> lex_lt((#[trigger] ms@[j]).0@, k@),
        ensures
            i <= ms@.len(),
            ms@ == old(ms)@,
            k == k0,
            v == v0,
            forall|j: int| 0 <= j < i ==> lex_lt((#[trigger] ms@[j]).0@, k@),
            i < ms@.len() ==> !lex_lt(ms@[i as int].0@, k@),
        decreases ms@.len() - i,
    {
        if i >= ms.len() {
            break;
        }
        if !bytes_lt(&ms[i].0, &k) {
            break;
        }
        i = i + 1;
    }
    let ghost mv = jview_members(ms@);
    proof {
        lemma_jview_members_elems(ms@);
        assert forall|j: int| 0 <= j < i implies lex_lt((#[trigger] mv[j]).0, k@) by {
            assert(mv[j] == (ms@[j].0@, jview(ms@[j].1)));
        }
        if i < ms@.len() {
            assert(mv[i as int] == (ms@[i as int].0@, jview(ms@[i as int].1)));
        }
        lemma_obj_insert_at(mv, k@, jview(v), i as int);
    }
    if i < ms.len() {
        let same = ms[i].0 == k;
        if same {
            proof {
                assert(ms@[i as int].0@ =~= k@);
            }
            ms.remove(i);
            ms.insert(i, (k, v));
            proof {
                lemma_jview_members_elems(ms@);
                lemma_jview_members_elems(old(ms)@);
                assert(ms@ =~= old(ms)@.update(i as int, (k0, v0)));
                let target = mv.update(i as int, (k0@, jview(v0)));
                assert forall|j: int| 0 <= j < jview_members(ms@).len() implies jview_members(
                    ms@,
                )[j] == target[j] by {
                    assert(jview_members(ms@)[j] == (ms@[j].0@, jview(ms@[j].1)));
                    if j != i {
                        assert(ms@[j] == old(ms)@[j]);
                        assert(mv[j] == (old(ms)@[j].0@, jview(old(ms)@[j].1)));
                    }
                }
                assert(jview_members(ms@) =~= target);
            }
            return ;
        }
        proof {
            assert(!(ms@[i as int].0@ =~= k0@)) by {
                if ms@[i as int].0@ =~= k0@ {
                    assert(ms@[i as int].0@ == k0@);
                }
            }
        }
    }
    ms.insert(i, (k, v));
    proof {
        lemma_jview_members_elems(ms@);
        lemma_jview_members_elems(old(ms)@);
        assert(ms@ =~= old(ms)@.insert(i as int, (k0, v0)));
        let target = mv.insert(i as int, (k0@, jview(v0)));
        assert forall|j: int| 0 <= j < jview_members(ms@).len() implies jview_members(ms@)[j]
            == target[j] by {
            assert(jview_members(ms@)[j] == (ms@[j].0@, jview(ms@[j].1)));
            if j < i {
                assert(ms@[j] == old(ms)@[j]);
                assert(mv[j] == (old(ms)@[j].0@, jview(old(ms)@[j].1)));
            } else if j > i {
                assert(ms@[j] == old(ms)@[j - 1]);
                assert(mv[j - 1] == (old(ms)@[j - 1].0@, jview(old(ms)@[j - 1].1)));
            }
        }
        assert(jview_members(ms@) =~= target);
    }
}

/// Look up the member with key `k`.
pub fn obj_get_exec<'a>(ms: &'a Vec<(Vec<u8>, Json)>, k: &Vec<u8>) -> (r: Option<&'a Json>)
    ensures
        match r {
            Some(v) => obj_get(jview_members(ms@), k@) == Some(v@),
            None => obj_get(jview_members(ms@), k@) is None,
        },
{
    let ghost mv = jview_members(ms@);
    proof {
        broadcast use lemma_jview_members_elems;

        assert(mv.skip(0) =~= mv);
    }
    let mut i: usize = 0;
    while i < ms.len()
        invariant
            i <= ms@.len(),
            mv == jview_members(ms@),
            mv.len() == ms@.len(),
            forall|j: int|
                0 <= j < ms@.len() ==> mv[j] == ((#[trigger] ms@[j]).0@, jview(ms@[j].1)),
            obj_get(mv, k@) == obj_get(mv.skip(i as int), k@),
        decreases ms@.len() - i,
    {
        proof {
            assert(mv.skip(i as int)[0] == mv[i as int]);
            assert(mv.skip(i as int).drop_first() =~= mv.skip(i as int + 1));
        }
        let hit = ms[i].0 == *k;
        if hit {
            proof {
                assert(ms@[i as int].0@ =~= k@);
            }
            return Some(&ms[i].1);
        }
        proof {
            assert(!(ms@[i as int].0@ =~= k@)) by {
                if ms@[i as int].0@ =~= k@ {
                    assert(ms@[i as int].0@ == k@);
                }
            }
        }
        i = i + 1;
    }
    None
}

// ---------------------------------------------------------------------------
// Canonical serialization
// ---------------------------------------------------------------------------

/// The escape expansion of one string byte.
pub open spec fn esc_byte(b: u8) -> Seq<u8> {
    if b == 34 {
        seq![92u8, 34u8]
    } else if b == 92 {
        seq![92u8, 92u8]
    } else if b == 8 {
        seq![92u8, 98u8]
    } else if b == 12 {
        seq![92u8, 102u8]
    } else if b == 10 {
        seq![92u8, 110u8]
    } else if b == 13 {
        seq![92u8, 114u8]
    } else if b == 9 {
        seq![92u8, 116u8]
    } else if b < 32 {
        seq![92u8, 117u8, 48u8, 48u8, crate::hash::hex_digit(b as int / 16), crate::hash::hex_digit(
            b as int % 16,
        )]
    } else {
        seq![b]
    }
}

/// The escaped form of string content bytes.
pub open spec fn esc_bytes(s: Seq<u8>) -> Seq<u8>
    decreases s.len(),
{
    if s.len() == 0 {
        Seq::empty()
    } else {
        esc_bytes(s.drop_last()) + esc_byte(s.last())
    }
}

/// The canonical serialization of a value.
pub open spec fn ser(m: JsonM) -> Seq<u8>
    decreases m,
{
    match m {
        JsonM::Null => seq![110u8, 117u8, 108u8, 108u8],
        JsonM::Bool(b) => if b {
            seq![116u8, 114u8, 117u8, 101u8]
        } else {
            seq![102u8, 97u8, 108u8, 115u8, 101u8]
        },
        JsonM::Num(lex) => lex,
        JsonM::Str(s) => seq![34u8] + esc_bytes(s) + seq![34u8],
        JsonM::Arr(items) => seq![91u8] + ser_items(items) + seq![93u8],
        JsonM::Obj(ms) => seq![123u8] + ser_members(ms) + seq![125u8],
    }
}

/// The comma-joined serializations of array elements.
pub open spec fn ser_items(items: Seq<JsonM>) -> Seq<u8>
    decreases items,
{
    if items.len() == 0 {
        Seq::empty()
    } else if items.len() == 1 {
        ser(items[0])
    } else {
        ser_items(items.drop_last()) + seq![44u8] + ser(items.last())
    }
}

/// The serialization of one object member.
pub open spec fn ser_member(p: (Seq<u8>, JsonM)) -> Seq<u8>
    decreases p,
{
    seq![34u8] + esc_bytes(p.0) + seq![34u8, 58u8] + ser(p.1)
}

/// The comma-joined serializations of object members.
pub open spec fn ser_members(ms: Seq<(Seq<u8>, JsonM)>) -> Seq<u8>
    decreases ms,
{
    if ms.len() == 0 {
        Seq::empty()
    } else if ms.len() == 1 {
        ser_member(ms[0])
    } else {
        ser_members(ms.drop_last()) + seq![44u8] + ser_member(ms.last())
    }
}

/// Append the escape expansion of every byte of `s` to `out`.
fn write_escaped(s: &Vec<u8>, out: &mut Vec<u8>)
    ensures
        final(out)@ == old(out)@ + esc_bytes(s@),
{
    let mut i: usize = 0;
    while i < s.len()
        invariant
            i <= s@.len(),
            out@ == old(out)@ + esc_bytes(s@.subrange(0, i as int)),
        decreases s@.len() - i,
    {
        let b = s[i];
        proof {
            assert(s@.subrange(0, i as int + 1).drop_last() =~= s@.subrange(0, i as int));
            assert(s@.subrange(0, i as int + 1).last() == b);
        }
        if b == 34 {
            out.push(92);
            out.push(34);
        } else if b == 92 {
            out.push(92);
            out.push(92);
        } else if b == 8 {
            out.push(92);
            out.push(98);
        } else if b == 12 {
            out.push(92);
            out.push(102);
        } else if b == 10 {
            out.push(92);
            out.push(110);
        } else if b == 13 {
            out.push(92);
            out.push(114);
        } else if b == 9 {
            out.push(92);
            out.push(116);
        } else if b < 32 {
            out.push(92);
            out.push(117);
            out.push(48);
            out.push(48);
            let hi = b / 16;
            let lo = b % 16;
            out.push(
                if hi < 10 {
                    48 + hi
                } else {
                    87 + hi
                },
            );
            out.push(
                if lo < 10 {
                    48 + lo
                } else {
                    87 + lo
                },
            );
        } else {
            out.push(b);
        }
        proof {
            assert(out@ =~= old(out)@ + esc_bytes(s@.subrange(0, i as int + 1)));
        }
        i = i + 1;
    }
    proof {
        assert(s@.subrange(0, s@.len() as int) =~= s@);
    }
}

/// Append the canonical serialization of `j` to `out`.
pub fn write_json(j: &Json, out: &mut Vec<u8>)
    ensures
        final(out)@ == old(out)@ + ser(j@),
    decreases *j,
{
    match j {
        Json::Null => {
            out.push(110);
            out.push(117);
            out.push(108);
            out.push(108);
            proof {
                assert(out@ =~= old(out)@ + ser(j@));
            }
        },
        Json::Bool(b) => {
            if *b {
                out.push(116);
                out.push(114);
                out.push(117);
                out.push(101);
            } else {
                out.push(102);
                out.push(97);
                out.push(108);
                out.push(115);
                out.push(101);
            }
            proof {
                assert(out@ =~= old(out)@ + ser(j@));
            }
        },
        Json::Num(lex) => {
            out.extend_from_slice(lex.as_slice());
            proof {
                assert(out@ =~= old(out)@ + ser(j@));
            }
        },
        Json::Str(s) => {
            out.push(34);
            write_escaped(s, out);
            out.push(34);
            proof {
                assert(out@ =~= old(out)@ + ser(j@));
            }
        },
        Json::Arr(items) => {
            out.push(91);
            write_items(items, out);
            out.push(93);
            proof {
                assert(out@ =~= old(out)@ + ser(j@));
            }
        },
        Json::Obj(ms) => {
            out.push(123);
            write_members(ms, out);
            out.push(125);
            proof {
                assert(out@ =~= old(out)@ + ser(j@));
            }
        },
    }
}

/// Append the comma-joined serializations of array elements to `out`.
fn write_items(items: &Vec<Json>, out: &mut Vec<u8>)
    ensures
        final(out)@ == old(out)@ + ser_items(jview_list(items@)),
    decreases items@,
{
    let mut i: usize = 0;
    while i < items.len()
        invariant
            i <= items@.len(),
            out@ == old(out)@ + ser_items(jview_list(items@.subrange(0, i as int))),
        decreases items@.len() - i,
    {
        if i > 0 {
            out.push(44);
        }
        write_json(&items[i], out);
        proof {
            broadcast use lemma_jview_list_elems;

            assert(items@.subrange(0, i as int + 1).drop_last() =~= items@.subrange(0, i as int));
            assert(items@.subrange(0, i as int + 1).last() == items@[i as int]);
            let pre = jview_list(items@.subrange(0, i as int + 1));
            assert(pre == jview_list(items@.subrange(0, i as int)).push(jview(items@[i as int])));
            assert(pre.drop_last() =~= jview_list(items@.subrange(0, i as int)));
            assert(pre.last() == jview(items@[i as int]));
            assert(out@ =~= old(out)@ + ser_items(pre));
        }
        i = i + 1;
    }
    proof {
        assert(items@.subrange(0, items@.len() as int) =~= items@);
    }
}

/// Append the comma-joined serializations of object members to `out`.
fn write_members(ms: &Vec<(Vec<u8>, Json)>, out: &mut Vec<u8>)
    ensures
        final(out)@ == old(out)@ + ser_members(jview_members(ms@)),
    decreases ms@,
{
    let mut i: usize = 0;
    while i < ms.len()
        invariant
            i <= ms@.len(),
            out@ == old(out)@ + ser_members(jview_members(ms@.subrange(0, i as int))),
        decreases ms@.len() - i,
    {
        if i > 0 {
            out.push(44);
        }
        out.push(34);
        write_escaped(&ms[i].0, out);
        out.push(34);
        out.push(58);
        proof {
            assert(decreases_to!(ms@ => ms@[i as int]));
        }
        write_json(&ms[i].1, out);
        proof {
            broadcast use lemma_jview_members_elems;

            assert(ms@.subrange(0, i as int + 1).drop_last() =~= ms@.subrange(0, i as int));
            assert(ms@.subrange(0, i as int + 1).last() == ms@[i as int]);
            let pre = jview_members(ms@.subrange(0, i as int + 1));
            assert(pre == jview_members(ms@.subrange(0, i as int)).push(
                (ms@[i as int].0@, jview(ms@[i as int].1)),
            ));
            assert(pre.drop_last() =~= jview_members(ms@.subrange(0, i as int)));
            assert(pre.last() == (ms@[i as int].0@, jview(ms@[i as int].1)));
            assert(ser_member((ms@[i as int].0@, jview(ms@[i as int].1))) == seq![34u8] + esc_bytes(
                ms@[i as int].0@,
            ) + seq![34u8, 58u8] + ser(jview(ms@[i as int].1)));
            assert(out@ =~= old(out)@ + ser_members(pre));
        }
        i = i + 1;
    }
    proof {
        assert(ms@.subrange(0, ms@.len() as int) =~= ms@);
    }
}

/// The decimal rendering of `n`, most significant digit first.
pub open spec fn dec_bytes(n: u64) -> Seq<u8>
    decreases n,
{
    if n < 10 {
        seq![(48 + n) as u8]
    } else {
        dec_bytes(n / 10).push((48 + n % 10) as u8)
    }
}

/// Append the decimal rendering of `n` to `out`.
pub fn write_dec(n: u64, out: &mut Vec<u8>)
    ensures
        final(out)@ == old(out)@ + dec_bytes(n),
    decreases n,
{
    if n < 10 {
        out.push((48 + n) as u8);
        proof {
            assert(out@ =~= old(out)@ + dec_bytes(n));
        }
    } else {
        write_dec(n / 10, out);
        out.push((48 + n % 10) as u8);
        proof {
            assert(out@ =~= old(out)@ + dec_bytes(n));
        }
    }
}

/// Whether `s` is a nonempty run of decimal digits.
pub open spec fn is_dec(s: Seq<u8>) -> bool {
    s.len() >= 1 && forall|i: int| 0 <= i < s.len() ==> 48 <= #[trigger] s[i] <= 57
}

/// The value of a digit run.
pub open spec fn dec_val(s: Seq<u8>) -> int
    decreases s.len(),
{
    if s.len() == 0 {
        0
    } else {
        dec_val(s.drop_last()) * 10 + (s.last() - 48)
    }
}

/// The decimal rendering of `n` is a digit run whose value is `n`.
pub proof fn lemma_dec_round_trip(n: u64)
    ensures
        is_dec(dec_bytes(n)),
        dec_val(dec_bytes(n)) == n,
    decreases n,
{
    if n < 10 {
        assert((48 + n) as u8 == 48 + n);
        assert(dec_bytes(n).drop_last() =~= Seq::<u8>::empty());
        assert(dec_bytes(n).last() == (48 + n) as u8);
        assert(dec_val(Seq::<u8>::empty()) == 0);
        assert(dec_val(dec_bytes(n)) == n);
    } else {
        lemma_dec_round_trip(n / 10);
        assert(dec_bytes(n) == dec_bytes(n / 10).push((48 + n % 10) as u8));
        assert(dec_bytes(n).drop_last() =~= dec_bytes(n / 10));
        assert(dec_bytes(n).last() == (48 + n % 10) as u8);
        assert forall|i: int| 0 <= i < dec_bytes(n).len() implies 48 <= #[trigger] dec_bytes(n)[i]
            <= 57 by {
            if i < dec_bytes(n).len() - 1 {
                assert(dec_bytes(n)[i] == dec_bytes(n / 10)[i]);
            }
        }
        assert((48 + n % 10) as u8 == 48 + n % 10);
        assert(dec_val(dec_bytes(n)) == dec_val(dec_bytes(n / 10)) * 10 + n % 10);
        assert((n / 10) * 10 + n % 10 == n);
    }
}

/// Read a digit run as a `u64`; fails on a non-digit, an empty run, or
/// overflow.
pub fn read_dec(s: &Vec<u8>) -> (r: Option<u64>)
    ensures
        match r {
            Some(n) => is_dec(s@) && dec_val(s@) == n,
            None => !is_dec(s@) || dec_val(s@) > u64::MAX,
        },
{
    if s.len() == 0 {
        return None;
    }
    let mut acc: u64 = 0;
    let mut i: usize = 0;
    while i < s.len()
        invariant
            i <= s@.len(),
            s@.len() >= 1,
            forall|j: int| 0 <= j < i ==> 48 <= #[trigger] s@[j] <= 57,
            acc == dec_val(s@.subrange(0, i as int)),
        decreases s@.len() - i,
    {
        let b = s[i];
        if !(48 <= b && b <= 57) {
            return None;
        }
        let d = (b - 48) as u64;
        if acc > (u64::MAX - d) / 10 {
            proof {
                assert(s@.subrange(0, i as int + 1).drop_last() =~= s@.subrange(0, i as int));
                assert(dec_val(s@.subrange(0, i as int + 1)) == acc * 10 + d);
                if is_dec(s@) {
                    lemma_dec_val_mono(s@, i as int);
                    assert(acc * 10 + d > u64::MAX) by (nonlinear_arith)
                        requires
                            acc > (u64::MAX - d) / 10,
                            d <= 9,
                            acc >= 0,
                    ;
                }
            }
            return None;
        }
        proof {
            assert(s@.subrange(0, i as int + 1).drop_last() =~= s@.subrange(0, i as int));
        }
        acc = acc * 10 + d;
        i = i + 1;
    }
    proof {
        assert(s@.subrange(0, s@.len() as int) =~= s@);
    }
    Some(acc)
}

/// A digit run's value only grows as it extends.
proof fn lemma_dec_val_mono(s: Seq<u8>, i: int)
    requires
        0 <= i < s.len(),
        forall|j: int| 0 <= j < s.len() ==> 48 <= #[trigger] s[j] <= 57,
    ensures
        dec_val(s) >= dec_val(s.subrange(0, i + 1)),
    decreases s.len() - i,
{
    if i + 1 == s.len() {
        assert(s.subrange(0, i + 1) =~= s);
    } else {
        lemma_dec_val_mono(s, i + 1);
        let a = s.subrange(0, i + 1);
        let b = s.subrange(0, i + 2);
        assert(b.drop_last() =~= a);
        assert(dec_val(a) >= 0) by {
            lemma_dec_val_nonneg(a);
        }
        assert(dec_val(b) == dec_val(a) * 10 + (b.last() - 48));
        assert(dec_val(b) >= dec_val(a)) by (nonlinear_arith)
            requires
                dec_val(b) == dec_val(a) * 10 + (b.last() - 48),
                dec_val(a) >= 0,
                b.last() >= 48,
        ;
    }
}

/// A digit run's value is never negative.
proof fn lemma_dec_val_nonneg(s: Seq<u8>)
    requires
        forall|j: int| 0 <= j < s.len() ==> 48 <= #[trigger] s[j] <= 57,
    ensures
        dec_val(s) >= 0,
    decreases s.len(),
{
    if s.len() > 0 {
        lemma_dec_val_nonneg(s.drop_last());
        assert(dec_val(s.drop_last()) * 10 >= 0) by (nonlinear_arith)
            requires
                dec_val(s.drop_last()) >= 0,
        ;
    }
}

/// The canonical serialization of `j` as a byte vector.
pub fn to_bytes(j: &Json) -> (r: Vec<u8>)
    ensures
        r@ == ser(j@),
{
    let mut out: Vec<u8> = Vec::new();
    write_json(j, &mut out);
    proof {
        assert(out@ =~= ser(j@));
    }
    out
}

} // verus!
