//! A JSON parser, specified by a recursive grammar over byte sequences.
//!
//! The spec functions define exactly which texts parse and to which model
//! values; the executable parser mirrors them branch for branch and is
//! proved to return precisely the spec result. Object members are
//! canonicalized during parsing: keys are kept sorted and a repeated key
//! keeps its last value.

use vstd::prelude::*;

use crate::json::{obj_insert, Json, JsonM};
use crate::json::{jview, jview_list, jview_members};
use crate::json::lemma_jview_list_elems;

verus! {

/// JSON whitespace.
pub open spec fn is_ws(b: u8) -> bool {
    b == 32 || b == 9 || b == 10 || b == 13
}

/// ASCII decimal digit.
pub open spec fn is_digit(b: u8) -> bool {
    48 <= b <= 57
}

pub open spec fn ws_scan(s: Seq<u8>, i: int) -> int
    decreases s.len() - i,
{
    if 0 <= i < s.len() && is_ws(s[i]) {
        ws_scan(s, i + 1)
    } else {
        i
    }
}

/// The first non-whitespace position at or after `i` (never before `i`).
pub open spec fn ws_end(s: Seq<u8>, i: int) -> int {
    let r = ws_scan(s, i);
    if r < i {
        i
    } else {
        r
    }
}

pub open spec fn digits_scan(s: Seq<u8>, i: int) -> int
    decreases s.len() - i,
{
    if 0 <= i < s.len() && is_digit(s[i]) {
        digits_scan(s, i + 1)
    } else {
        i
    }
}

/// The end of the digit run starting at `i` (never before `i`).
pub open spec fn digits_end(s: Seq<u8>, i: int) -> int {
    let r = digits_scan(s, i);
    if r < i {
        i
    } else {
        r
    }
}

/// A successor position that is structurally past `i` and at most `n`, used
/// so that the grammar's recursion visibly advances within the text.
pub open spec fn past(i: int, j: int, n: int) -> int {
    let k = if j > i {
        j
    } else {
        i + 1
    };
    if k > n {
        n
    } else {
        k
    }
}

/// `ws_scan` never moves backwards.
pub proof fn lemma_ws_scan_ge(s: Seq<u8>, i: int)
    ensures
        ws_scan(s, i) >= i,
    decreases s.len() - i,
{
    if 0 <= i < s.len() && is_ws(s[i]) {
        lemma_ws_scan_ge(s, i + 1);
    }
}

/// `digits_scan` never moves backwards, and moves past a leading digit.
pub proof fn lemma_digits_scan_ge(s: Seq<u8>, i: int)
    ensures
        digits_scan(s, i) >= i,
        0 <= i < s.len() && is_digit(s[i]) ==> digits_scan(s, i) >= i + 1,
    decreases s.len() - i,
{
    if 0 <= i < s.len() && is_digit(s[i]) {
        lemma_digits_scan_ge(s, i + 1);
    }
}

/// The value of a hex digit byte.
pub open spec fn hex_val(b: u8) -> Option<int> {
    if 48 <= b <= 57 {
        Some((b - 48) as int)
    } else if 97 <= b <= 102 {
        Some((b - 87) as int)
    } else if 65 <= b <= 70 {
        Some((b - 55) as int)
    } else {
        None
    }
}

/// The value of the four hex digits at `i`.
pub open spec fn hex4(s: Seq<u8>, i: int) -> Option<int> {
    if 0 <= i && i + 4 <= s.len() {
        match (hex_val(s[i]), hex_val(s[i + 1]), hex_val(s[i + 2]), hex_val(s[i + 3])) {
            (Some(a), Some(b), Some(c), Some(d)) => Some(a * 4096 + b * 256 + c * 16 + d),
            _ => None,
        }
    } else {
        None
    }
}

/// The UTF-8 encoding of the scalar value `cp`.
pub open spec fn utf8_enc(cp: int) -> Seq<u8> {
    if cp < 0x80 {
        seq![cp as u8]
    } else if cp < 0x800 {
        seq![(192 + cp / 64) as u8, (128 + cp % 64) as u8]
    } else if cp < 0x10000 {
        seq![(224 + cp / 4096) as u8, (128 + (cp / 64) % 64) as u8, (128 + cp % 64) as u8]
    } else {
        seq![
            (240 + cp / 262144) as u8,
            (128 + (cp / 4096) % 64) as u8,
            (128 + (cp / 64) % 64) as u8,
            (128 + cp % 64) as u8,
        ]
    }
}

/// Parse the body of a string literal starting at `i` (just after the
/// opening quote), accumulating decoded bytes onto `acc`; on success,
/// returns the decoded content and the position after the closing quote.
pub open spec fn str_body(s: Seq<u8>, i: int, acc: Seq<u8>) -> Option<(Seq<u8>, int)>
    decreases s.len() - i,
{
    if !(0 <= i < s.len()) {
        None
    } else if s[i] == 34 {
        Some((acc, i + 1))
    } else if s[i] == 92 {
        if i + 1 >= s.len() {
            None
        } else {
            let e = s[i + 1];
            if e == 34 {
                str_body(s, i + 2, acc.push(34))
            } else if e == 92 {
                str_body(s, i + 2, acc.push(92))
            } else if e == 47 {
                str_body(s, i + 2, acc.push(47))
            } else if e == 98 {
                str_body(s, i + 2, acc.push(8))
            } else if e == 102 {
                str_body(s, i + 2, acc.push(12))
            } else if e == 110 {
                str_body(s, i + 2, acc.push(10))
            } else if e == 114 {
                str_body(s, i + 2, acc.push(13))
            } else if e == 116 {
                str_body(s, i + 2, acc.push(9))
            } else if e == 117 {
                if i + 6 > s.len() {
                    None
                } else {
                    match hex4(s, i + 2) {
                        None => None,
                        Some(cp) => if 0xD800 <= cp < 0xDC00 {
                            if i + 12 <= s.len() && s[i + 6] == 92 && s[i + 7] == 117 {
                                match hex4(s, i + 8) {
                                    None => None,
                                    Some(lo) => if 0xDC00 <= lo < 0xE000 {
                                        str_body(
                                            s,
                                            i + 12,
                                            acc + utf8_enc(
                                                0x10000 + (cp - 0xD800) * 0x400 + (lo - 0xDC00),
                                            ),
                                        )
                                    } else {
                                        None
                                    },
                                }
                            } else {
                                None
                            }
                        } else if 0xDC00 <= cp < 0xE000 {
                            None
                        } else {
                            str_body(s, i + 6, acc + utf8_enc(cp))
                        },
                    }
                }
            } else {
                None
            }
        }
    } else if s[i] < 32 {
        None
    } else {
        str_body(s, i + 1, acc.push(s[i]))
    }
}

/// The end of the number starting at `i`, if the text there is a valid
/// JSON number.
pub open spec fn num_end(s: Seq<u8>, i: int) -> Option<int> {
    let j = if 0 <= i < s.len() && s[i] == 45 {
        i + 1
    } else {
        i
    };
    if !(0 <= j < s.len() && is_digit(s[j])) {
        None
    } else {
        let k = if s[j] == 48 {
            j + 1
        } else {
            digits_end(s, j)
        };
        let after_frac = if k < s.len() && s[k] == 46 {
            if k + 1 < s.len() && is_digit(s[k + 1]) {
                Some(digits_end(s, k + 1))
            } else {
                None
            }
        } else {
            Some(k)
        };
        match after_frac {
            None => None,
            Some(k2) => if k2 < s.len() && (s[k2] == 101 || s[k2] == 69) {
                let e1 = if k2 + 1 < s.len() && (s[k2 + 1] == 43 || s[k2 + 1] == 45) {
                    k2 + 2
                } else {
                    k2 + 1
                };
                if e1 < s.len() && is_digit(s[e1]) {
                    Some(digits_end(s, e1))
                } else {
                    None
                }
            } else {
                Some(k2)
            },
        }
    }
}

/// Parse one JSON value starting exactly at `i`.
pub open spec fn parse_value(s: Seq<u8>, i: int) -> Option<(JsonM, int)>
    decreases s.len() - i, 0int,
{
    if !(0 <= i < s.len()) {
        None
    } else {
        let b = s[i];
        if b == 110 {  // null
            if i + 4 <= s.len() && s[i + 1] == 117 && s[i + 2] == 108 && s[i + 3] == 108 {
                Some((JsonM::Null, i + 4))
            } else {
                None
            }
        } else if b == 116 {  // true
            if i + 4 <= s.len() && s[i + 1] == 114 && s[i + 2] == 117 && s[i + 3] == 101 {
                Some((JsonM::Bool(true), i + 4))
            } else {
                None
            }
        } else if b == 102 {  // false
            if i + 5 <= s.len() && s[i + 1] == 97 && s[i + 2] == 108 && s[i + 3] == 115 && s[i + 4]
                == 101 {
                Some((JsonM::Bool(false), i + 5))
            } else {
                None
            }
        } else if b == 34 {  // string
            match str_body(s, i + 1, Seq::empty()) {
                None => None,
                Some((content, j)) => Some((JsonM::Str(content), j)),
            }
        } else if b == 45 || is_digit(b) {  // number
            match num_end(s, i) {
                None => None,
                Some(e) => Some((JsonM::Num(s.subrange(i, e)), e)),
            }
        } else if b == 91 {  // array
            let j = ws_end(s, i + 1);
            if j < s.len() && s[j] == 93 {
                Some((JsonM::Arr(Seq::empty()), j + 1))
            } else {
                match parse_elems(s, past(i, j, s.len() as int), Seq::empty()) {
                    None => None,
                    Some((items, j2)) => Some((JsonM::Arr(items), j2)),
                }
            }
        } else if b == 123 {  // object
            let j = ws_end(s, i + 1);
            if j < s.len() && s[j] == 125 {
                Some((JsonM::Obj(Seq::empty()), j + 1))
            } else {
                match parse_membs(s, past(i, j, s.len() as int), Seq::empty()) {
                    None => None,
                    Some((ms, j2)) => Some((JsonM::Obj(ms), j2)),
                }
            }
        } else {
            None
        }
    }
}

/// Parse array elements; `i` is at the first byte of the next element.
pub open spec fn parse_elems(s: Seq<u8>, i: int, acc: Seq<JsonM>) -> Option<(Seq<JsonM>, int)>
    decreases s.len() - i, 1int,
{
    if !(0 <= i < s.len()) {
        None
    } else {
        match parse_value(s, i) {
            None => None,
            Some((v, j)) => {
                let j2 = ws_end(s, j);
                if j2 < s.len() && s[j2] == 44 {
                    parse_elems(s, past(i, ws_end(s, j2 + 1), s.len() as int), acc.push(v))
                } else if j2 < s.len() && s[j2] == 93 {
                    Some((acc.push(v), j2 + 1))
                } else {
                    None
                }
            },
        }
    }
}

/// Parse object members; `i` is at the opening quote of the next key.
pub open spec fn parse_membs(s: Seq<u8>, i: int, acc: Seq<(Seq<u8>, JsonM)>) -> Option<
    (Seq<(Seq<u8>, JsonM)>, int),
>
    decreases s.len() - i, 1int,
{
    if !(0 <= i < s.len() && s[i] == 34) {
        None
    } else {
        match str_body(s, i + 1, Seq::empty()) {
            None => None,
            Some((key, j)) => {
                let j2 = ws_end(s, j);
                if !(j2 < s.len() && s[j2] == 58) {
                    None
                } else {
                    match parse_value(s, past(i, ws_end(s, j2 + 1), s.len() as int)) {
                        None => None,
                        Some((v, j4)) => {
                            let acc2 = obj_insert(acc, key, v);
                            let j5 = ws_end(s, j4);
                            if j5 < s.len() && s[j5] == 44 {
                                parse_membs(s, past(i, ws_end(s, j5 + 1), s.len() as int), acc2)
                            } else if j5 < s.len() && s[j5] == 125 {
                                Some((acc2, j5 + 1))
                            } else {
                                None
                            }
                        },
                    }
                }
            },
        }
    }
}

/// Parse a complete JSON document: one value, possibly surrounded by
/// whitespace, spanning the whole text.
pub open spec fn parse_json(s: Seq<u8>) -> Option<JsonM> {
    match parse_value(s, ws_end(s, 0)) {
        None => None,
        Some((v, j)) => if ws_end(s, j) == s.len() {
            Some(v)
        } else {
            None
        },
    }
}

// ---------------------------------------------------------------------------
// Executable parser
// ---------------------------------------------------------------------------

/// Skip whitespace from `i`.
fn ws_skip(s: &Vec<u8>, i: usize) -> (r: usize)
    requires
        i <= s@.len(),
    ensures
        r as int == ws_end(s@, i as int),
        i <= r <= s@.len(),
{
    let mut cur = i;
    while cur < s.len() && (s[cur] == 32 || s[cur] == 9 || s[cur] == 10 || s[cur] == 13)
        invariant
            i <= cur <= s@.len(),
            ws_scan(s@, i as int) == ws_scan(s@, cur as int),
        decreases s@.len() - cur,
    {
        cur = cur + 1;
    }
    cur
}

/// Skip a run of digits from `i`.
fn digits_skip(s: &Vec<u8>, i: usize) -> (r: usize)
    requires
        i <= s@.len(),
    ensures
        r as int == digits_end(s@, i as int),
        i <= r <= s@.len(),
{
    let mut cur = i;
    while cur < s.len() && 48 <= s[cur] && s[cur] <= 57
        invariant
            i <= cur <= s@.len(),
            digits_scan(s@, i as int) == digits_scan(s@, cur as int),
        decreases s@.len() - cur,
    {
        cur = cur + 1;
    }
    cur
}

/// Read the four hex digits at `i`.
fn hex4_exec(s: &Vec<u8>, i: usize) -> (r: Option<u32>)
    requires
        i + 4 <= s@.len(),
    ensures
        match r {
            Some(cp) => hex4(s@, i as int) == Some(cp as int) && cp < 0x10000,
            None => hex4(s@, i as int) is None,
        },
{
    let n = s.len();
    let a = match hex_digit_exec(s[i]) {
        Some(x) => x,
        None => {
            return None;
        },
    };
    let b = match hex_digit_exec(s[i + 1]) {
        Some(x) => x,
        None => {
            return None;
        },
    };
    let c = match hex_digit_exec(s[i + 2]) {
        Some(x) => x,
        None => {
            return None;
        },
    };
    let d = match hex_digit_exec(s[i + 3]) {
        Some(x) => x,
        None => {
            return None;
        },
    };
    Some((a as u32) * 4096 + (b as u32) * 256 + (c as u32) * 16 + (d as u32))
}

/// The value of one hex digit byte.
fn hex_digit_exec(b: u8) -> (r: Option<u8>)
    ensures
        match r {
            Some(x) => hex_val(b) == Some(x as int) && x < 16,
            None => hex_val(b) is None,
        },
{
    if 48 <= b && b <= 57 {
        Some(b - 48)
    } else if 97 <= b && b <= 102 {
        Some(b - 87)
    } else if 65 <= b && b <= 70 {
        Some(b - 55)
    } else {
        None
    }
}

/// Append the UTF-8 encoding of scalar `cp` to `out`.
fn push_utf8(out: &mut Vec<u8>, cp: u32)
    requires
        cp <= 0x10FFFF,
    ensures
        final(out)@ == old(out)@ + utf8_enc(cp as int),
{
    if cp < 0x80 {
        out.push(cp as u8);
    } else if cp < 0x800 {
        out.push((192 + cp / 64) as u8);
        out.push((128 + cp % 64) as u8);
    } else if cp < 0x10000 {
        out.push((224 + cp / 4096) as u8);
        out.push((128 + (cp / 64) % 64) as u8);
        out.push((128 + cp % 64) as u8);
    } else {
        out.push((240 + cp / 262144) as u8);
        out.push((128 + (cp / 4096) % 64) as u8);
        out.push((128 + (cp / 64) % 64) as u8);
        out.push((128 + cp % 64) as u8);
    }
    proof {
        assert(out@ =~= old(out)@ + utf8_enc(cp as int));
    }
}

/// Parse a string body starting at `i` (just after the opening quote).
fn parse_string_exec(s: &Vec<u8>, i: usize) -> (r: Option<(Vec<u8>, usize)>)
    requires
        i <= s@.len(),
    ensures
        match r {
            Some(p) => str_body(s@, i as int, Seq::empty()) == Some((p.0@, p.1 as int)) && i < p.1
                <= s@.len(),
            None => str_body(s@, i as int, Seq::<u8>::empty()) is None,
        },
{
    let mut acc: Vec<u8> = Vec::new();
    let mut cur: usize = i;
    loop
        invariant
            i <= cur <= s@.len(),
            str_body(s@, i as int, Seq::empty()) == str_body(s@, cur as int, acc@),
        decreases s@.len() - cur,
    {
        if cur >= s.len() {
            return None;
        }
        let b = s[cur];
        if b == 34 {
            return Some((acc, cur + 1));
        }
        let ghost prev = cur;
        let ghost prev_acc = acc@;
        if b == 92 {
            if cur + 1 >= s.len() {
                return None;
            }
            let e = s[cur + 1];
            if e == 34 {
                acc.push(34);
                cur = cur + 2;
            } else if e == 92 {
                acc.push(92);
                cur = cur + 2;
            } else if e == 47 {
                acc.push(47);
                cur = cur + 2;
            } else if e == 98 {
                acc.push(8);
                cur = cur + 2;
            } else if e == 102 {
                acc.push(12);
                cur = cur + 2;
            } else if e == 110 {
                acc.push(10);
                cur = cur + 2;
            } else if e == 114 {
                acc.push(13);
                cur = cur + 2;
            } else if e == 116 {
                acc.push(9);
                cur = cur + 2;
            } else if e == 117 {
                if s.len() - cur < 6 {
                    return None;
                }
                let cp = match hex4_exec(s, cur + 2) {
                    Some(x) => x,
                    None => {
                        return None;
                    },
                };
                if 0xD800 <= cp && cp < 0xDC00 {
                    if s.len() - cur >= 12 && s[cur + 6] == 92 && s[cur + 7] == 117 {
                        let lo = match hex4_exec(s, cur + 8) {
                            Some(x) => x,
                            None => {
                                return None;
                            },
                        };
                        if 0xDC00 <= lo && lo < 0xE000 {
                            let scalar = 0x10000 + (cp - 0xD800) * 0x400 + (lo - 0xDC00);
                            push_utf8(&mut acc, scalar);
                            cur = cur + 12;
                        } else {
                            return None;
                        }
                    } else {
                        return None;
                    }
                } else if 0xDC00 <= cp && cp < 0xE000 {
                    return None;
                } else {
                    push_utf8(&mut acc, cp);
                    cur = cur + 6;
                }
            } else {
                return None;
            }
        } else if b < 32 {
            return None;
        } else {
            acc.push(b);
            cur = cur + 1;
        }
        proof {
            assert(str_body(s@, prev as int, prev_acc) == str_body(s@, cur as int, acc@));
        }
    }
}

/// Copy `s[a..b]` into a new vector.
pub fn sub_vec(s: &Vec<u8>, a: usize, b: usize) -> (r: Vec<u8>)
    requires
        a <= b <= s@.len(),
    ensures
        r@ == s@.subrange(a as int, b as int),
{
    let mut out: Vec<u8> = Vec::new();
    let mut k = a;
    while k < b
        invariant
            a <= k <= b <= s@.len(),
            out@ == s@.subrange(a as int, k as int),
        decreases b - k,
    {
        out.push(s[k]);
        proof {
            assert(out@ =~= s@.subrange(a as int, k as int + 1));
        }
        k = k + 1;
    }
    out
}

/// Find the end of the number starting at `i`.
fn parse_number_exec(s: &Vec<u8>, i: usize) -> (r: Option<usize>)
    requires
        i <= s@.len(),
    ensures
        match r {
            Some(e) => num_end(s@, i as int) == Some(e as int) && i < e <= s@.len(),
            None => num_end(s@, i as int) is None,
        },
{
    let j = if i < s.len() && s[i] == 45 {
        i + 1
    } else {
        i
    };
    if !(j < s.len() && 48 <= s[j] && s[j] <= 57) {
        return None;
    }
    let k = if s[j] == 48 {
        j + 1
    } else {
        proof {
            lemma_digits_scan_ge(s@, j as int);
        }
        digits_skip(s, j)
    };
    let k2 = if k < s.len() && s[k] == 46 {
        if k + 1 < s.len() && 48 <= s[k + 1] && s[k + 1] <= 57 {
            proof {
                lemma_digits_scan_ge(s@, k as int + 1);
            }
            digits_skip(s, k + 1)
        } else {
            return None;
        }
    } else {
        k
    };
    if k2 < s.len() && (s[k2] == 101 || s[k2] == 69) {
        let e1 = if k2 + 1 < s.len() && (s[k2 + 1] == 43 || s[k2 + 1] == 45) {
            k2 + 2
        } else {
            k2 + 1
        };
        if e1 < s.len() && 48 <= s[e1] && s[e1] <= 57 {
            proof {
                lemma_digits_scan_ge(s@, e1 as int);
            }
            Some(digits_skip(s, e1))
        } else {
            None
        }
    } else {
        Some(k2)
    }
}

/// Parse one JSON value starting exactly at `i`.
#[verifier::rlimit(60)]
fn parse_value_exec(s: &Vec<u8>, i: usize) -> (r: Option<(Json, usize)>)
    requires
        i <= s@.len(),
    ensures
        match r {
            Some(p) => parse_value(s@, i as int) == Some((p.0@, p.1 as int)) && i < p.1 <= s@.len(),
            None => parse_value(s@, i as int) is None,
        },
    decreases s@.len() - i, 0int,
{
    if i >= s.len() {
        return None;
    }
    let b = s[i];
    if b == 110 {
        if s.len() - i >= 4 && s[i + 1] == 117 && s[i + 2] == 108 && s[i + 3] == 108 {
            Some((Json::Null, i + 4))
        } else {
            None
        }
    } else if b == 116 {
        if s.len() - i >= 4 && s[i + 1] == 114 && s[i + 2] == 117 && s[i + 3] == 101 {
            Some((Json::Bool(true), i + 4))
        } else {
            None
        }
    } else if b == 102 {
        if s.len() - i >= 5 && s[i + 1] == 97 && s[i + 2] == 108 && s[i + 3] == 115 && s[i + 4]
            == 101 {
            Some((Json::Bool(false), i + 5))
        } else {
            None
        }
    } else if b == 34 {
        match parse_string_exec(s, i + 1) {
            None => None,
            Some((content, j)) => Some((Json::Str(content), j)),
        }
    } else if b == 45 || (48 <= b && b <= 57) {
        match parse_number_exec(s, i) {
            None => None,
            Some(e) => Some((Json::Num(sub_vec(s, i, e)), e)),
        }
    } else if b == 91 {
        let j = ws_skip(s, i + 1);
        if j < s.len() && s[j] == 93 {
            proof {
                assert(jview_list(Seq::<Json>::empty()) =~= Seq::<JsonM>::empty());
            }
            Some((Json::Arr(Vec::new()), j + 1))
        } else {
            proof {
                assert(past(i as int, j as int, s@.len() as int) == j as int);
                assert(jview_list(Seq::<Json>::empty()) =~= Seq::<JsonM>::empty());
            }
            match parse_elems_exec(s, j, Vec::new()) {
                None => None,
                Some((items, j2)) => Some((Json::Arr(items), j2)),
            }
        }
    } else if b == 123 {
        let j = ws_skip(s, i + 1);
        if j < s.len() && s[j] == 125 {
            proof {
                assert(jview_members(Seq::<(Vec<u8>, Json)>::empty()) =~= Seq::<
                    (Seq<u8>, JsonM),
                >::empty());
            }
            Some((Json::Obj(Vec::new()), j + 1))
        } else {
            proof {
                assert(past(i as int, j as int, s@.len() as int) == j as int);
                assert(jview_members(Seq::<(Vec<u8>, Json)>::empty()) =~= Seq::<
                    (Seq<u8>, JsonM),
                >::empty());
            }
            match parse_membs_exec(s, j, Vec::new()) {
                None => None,
                Some((ms, j2)) => Some((Json::Obj(ms), j2)),
            }
        }
    } else {
        None
    }
}

/// Parse array elements starting at `i`.
fn parse_elems_exec(s: &Vec<u8>, i: usize, acc: Vec<Json>) -> (r: Option<(Vec<Json>, usize)>)
    requires
        i <= s@.len(),
    ensures
        match r {
            Some(p) => parse_elems(s@, i as int, jview_list(acc@)) == Some(
                (jview_list(p.0@), p.1 as int),
            ) && i < p.1 <= s@.len(),
            None => parse_elems(s@, i as int, jview_list(acc@)) is None,
        },
    decreases s@.len() - i, 1int,
{
    let mut acc = acc;
    if i >= s.len() {
        return None;
    }
    match parse_value_exec(s, i) {
        None => None,
        Some((v, j)) => {
            let j2 = ws_skip(s, j);
            if j2 < s.len() && s[j2] == 44 {
                let nxt = ws_skip(s, j2 + 1);
                proof {
                    assert(past(i as int, nxt as int, s@.len() as int) == nxt as int);
                    lemma_jview_list_elems(acc@);
                }
                let ghost old_acc = acc@;
                acc.push(v);
                proof {
                    assert(acc@.drop_last() =~= old_acc);
                    assert(jview_list(acc@) =~= jview_list(old_acc).push(jview(acc@.last())));
                }
                parse_elems_exec(s, nxt, acc)
            } else if j2 < s.len() && s[j2] == 93 {
                let ghost old_acc = acc@;
                acc.push(v);
                proof {
                    assert(acc@.drop_last() =~= old_acc);
                    assert(jview_list(acc@) =~= jview_list(old_acc).push(jview(acc@.last())));
                }
                Some((acc, j2 + 1))
            } else {
                None
            }
        },
    }
}

/// Parse object members starting at `i`.
fn parse_membs_exec(s: &Vec<u8>, i: usize, acc: Vec<(Vec<u8>, Json)>) -> (r: Option<
    (Vec<(Vec<u8>, Json)>, usize),
>)
    requires
        i <= s@.len(),
    ensures
        match r {
            Some(p) => parse_membs(s@, i as int, jview_members(acc@)) == Some(
                (jview_members(p.0@), p.1 as int),
            ) && i < p.1 <= s@.len(),
            None => parse_membs(s@, i as int, jview_members(acc@)) is None,
        },
    decreases s@.len() - i, 1int,
{
    let mut acc = acc;
    if !(i < s.len() && s[i] == 34) {
        return None;
    }
    match parse_string_exec(s, i + 1) {
        None => None,
        Some((key, j)) => {
            let j2 = ws_skip(s, j);
            if !(j2 < s.len() && s[j2] == 58) {
                return None;
            }
            let j3 = ws_skip(s, j2 + 1);
            proof {
                assert(past(i as int, j3 as int, s@.len() as int) == j3 as int);
            }
            match parse_value_exec(s, j3) {
                None => None,
                Some((v, j4)) => {
                    let ghost old_acc_v = jview_members(acc@);
                    let ghost keyv = key@;
                    let ghost vv = jview(v);
                    crate::json::obj_insert_exec(&mut acc, key, v);
                    let j5 = ws_skip(s, j4);
                    if j5 < s.len() && s[j5] == 44 {
                        let nxt = ws_skip(s, j5 + 1);
                        proof {
                            assert(past(i as int, nxt as int, s@.len() as int) == nxt as int);
                        }
                        parse_membs_exec(s, nxt, acc)
                    } else if j5 < s.len() && s[j5] == 125 {
                        Some((acc, j5 + 1))
                    } else {
                        None
                    }
                },
            }
        },
    }
}

/// Parse a complete JSON document.
pub fn parse_json_exec(s: &Vec<u8>) -> (r: Option<Json>)
    ensures
        match r {
            Some(v) => parse_json(s@) == Some(v@),
            None => parse_json(s@) is None,
        },
{
    let i = ws_skip(s, 0);
    match parse_value_exec(s, i) {
        None => None,
        Some((v, j)) => {
            let j2 = ws_skip(s, j);
            if j2 == s.len() {
                Some(v)
            } else {
                None
            }
        },
    }
}

} // verus!
