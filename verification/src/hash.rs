//! Content addressing: a deterministic digest over canonical bytes.
//!
//! The digest concatenates the hex renderings of two independent 64-bit
//! multiply-xor folds, giving a fixed-width, printable, underscore-free key
//! suitable for the store. It is fully specified: two byte sequences hash
//! equal exactly when the spec-level folds agree.
//!
//! The digest is deliberately a specified function rather than a named
//! cryptographic one, so content addressing is verified end to end. It is
//! not collision-resistant against adversarial inputs; the store tolerates
//! a collision by silently merging the colliding dependency groups, and the
//! round-trip law states the collision-freeness it assumes explicitly.

use vstd::prelude::*;

verus! {

/// Offset basis of the first fold.
pub const FOLD_BASIS_A: u64 = 0xcbf29ce484222325;

/// Offset basis of the second fold.
pub const FOLD_BASIS_B: u64 = 0x9e3779b97f4a7c15;

/// Multiplier of both folds.
pub const FOLD_PRIME: u64 = 0x100000001b3;

/// One step of the fold: mix a byte into the state.
pub open spec fn fold_step(h: u64, b: u8) -> u64 {
    (h ^ (b as u64)).wrapping_mul(FOLD_PRIME)
}

/// The fold of a whole byte sequence, starting from `h0`.
pub open spec fn fold_bytes(h0: u64, s: Seq<u8>) -> u64
    decreases s.len(),
{
    if s.len() == 0 {
        h0
    } else {
        fold_step(fold_bytes(h0, s.drop_last()), s.last())
    }
}

/// 16^e, for nibble extraction.
pub open spec fn pow16(e: int) -> int
    decreases e,
{
    if e <= 0 {
        1
    } else {
        16 * pow16(e - 1)
    }
}

/// The `k`-th nibble of `h`, most significant first.
pub open spec fn nibble(h: u64, k: int) -> int {
    ((h as int) / pow16(15 - k)) % 16
}

/// Lowercase hex rendering of a nibble value, as an ASCII byte.
pub open spec fn hex_digit(d: int) -> u8 {
    if d < 10 {
        (48 + d) as u8
    } else {
        (87 + d) as u8
    }
}

/// The 16 hex digits of a 64-bit value, most significant first.
pub open spec fn hex16(h: u64) -> Seq<u8> {
    Seq::new(16, |k: int| hex_digit(nibble(h, k)))
}

/// The full digest: 32 lowercase hex bytes.
pub open spec fn digest32(s: Seq<u8>) -> Seq<u8> {
    hex16(fold_bytes(FOLD_BASIS_A, s)) + hex16(fold_bytes(FOLD_BASIS_B, s))
}

/// Whether `b` is a lowercase hex digit byte.
pub open spec fn is_hex_byte(b: u8) -> bool {
    (48 <= b <= 57) || (97 <= b <= 102)
}

pub proof fn lemma_pow16_pos(e: int)
    ensures
        pow16(e) >= 1,
    decreases e,
{
    if e > 0 {
        lemma_pow16_pos(e - 1);
    }
}

/// Every byte of a digest is a lowercase hex digit, so a digest never
/// contains the marker separator `_` (byte 95).
pub proof fn lemma_digest32_shape(s: Seq<u8>)
    ensures
        digest32(s).len() == 32,
        forall|j: int| 0 <= j < 32 ==> is_hex_byte(#[trigger] digest32(s)[j]),
{
    assert forall|j: int| 0 <= j < 32 implies is_hex_byte(#[trigger] digest32(s)[j]) by {
        let h = if j < 16 {
            fold_bytes(FOLD_BASIS_A, s)
        } else {
            fold_bytes(FOLD_BASIS_B, s)
        };
        let k = if j < 16 {
            j
        } else {
            j - 16
        };
        lemma_pow16_pos(15 - k);
        assert(0 <= nibble(h, k) < 16);
        assert(digest32(s)[j] == hex_digit(nibble(h, k)));
    }
}

pub proof fn lemma_pow16_mono(a: int, b: int)
    requires
        a <= b,
    ensures
        pow16(a) <= pow16(b),
    decreases b - a,
{
    if a < b {
        lemma_pow16_mono(a, b - 1);
        lemma_pow16_pos(b - 1);
    }
}

/// Compute 16^e as a `u64`.
fn pow16_exec(e: usize) -> (r: u64)
    requires
        e < 16,
    ensures
        r as int == pow16(e as int),
{
    let mut r: u64 = 1;
    let mut i: usize = 0;
    while i < e
        invariant
            i <= e < 16,
            r as int == pow16(i as int),
        decreases e - i,
    {
        proof {
            lemma_pow16_mono(i as int, 14);
            reveal_with_fuel(pow16, 16);
            assert(pow16(14) == 0x100000000000000);
        }
        r = r * 16;
        i = i + 1;
    }
    r
}

/// Append the 16 hex digits of `h` to `out`.
fn push_hex16(out: &mut Vec<u8>, h: u64)
    ensures
        final(out)@ == old(out)@ + hex16(h),
{
    let mut k: usize = 0;
    while k < 16
        invariant
            k <= 16,
            out@ == old(out)@ + hex16(h).subrange(0, k as int),
        decreases 16 - k,
    {
        let p = pow16_exec(15 - k);
        proof {
            lemma_pow16_pos(15 - k as int);
        }
        let d = (h / p) % 16;
        let b: u8 = if d < 10 {
            (48 + d) as u8
        } else {
            (87 + d) as u8
        };
        assert(b == hex_digit(nibble(h, k as int)));
        out.push(b);
        assert(out@ =~= old(out)@ + hex16(h).subrange(0, k as int + 1));
        k = k + 1;
    }
    assert(hex16(h).subrange(0, 16) =~= hex16(h));
}

/// The content digest of `s`: 32 lowercase hex bytes, a pure function of the
/// input bytes.
pub fn digest(s: &Vec<u8>) -> (r: Vec<u8>)
    ensures
        r@ == digest32(s@),
        r@.len() == 32,
{
    let mut ha: u64 = FOLD_BASIS_A;
    let mut hb: u64 = FOLD_BASIS_B;
    let mut i: usize = 0;
    while i < s.len()
        invariant
            i <= s@.len(),
            ha == fold_bytes(FOLD_BASIS_A, s@.subrange(0, i as int)),
            hb == fold_bytes(FOLD_BASIS_B, s@.subrange(0, i as int)),
        decreases s@.len() - i,
    {
        let b = s[i];
        proof {
            assert(s@.subrange(0, i as int + 1).drop_last() =~= s@.subrange(0, i as int));
            assert(s@.subrange(0, i as int + 1).last() == b);
        }
        ha = (ha ^ (b as u64)).wrapping_mul(FOLD_PRIME);
        hb = (hb ^ (b as u64)).wrapping_mul(FOLD_PRIME);
        i = i + 1;
    }
    proof {
        assert(s@.subrange(0, s@.len() as int) =~= s@);
    }
    let mut out: Vec<u8> = Vec::new();
    push_hex16(&mut out, ha);
    push_hex16(&mut out, hb);
    proof {
        assert(out@ =~= digest32(s@));
        lemma_digest32_shape(s@);
    }
    out
}

} // verus!
