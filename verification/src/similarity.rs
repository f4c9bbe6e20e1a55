//! Levenshtein-based similarity, as `strsim::normalized_levenshtein`
//! defines it: `1 - distance / max(len(a), len(b))` in characters, and `1`
//! for two empty strings. Similarities are kept as exact fractions
//! `1 - num / den` and compared exactly.
use vstd::prelude::*;

use crate::text::string_of;

verus! {

/// The Levenshtein distance between `a` and `b` that `strsim::levenshtein`
/// computes.
pub uninterp spec fn levenshtein_distance(a: Seq<char>, b: Seq<char>) -> nat;

/// Calls `strsim::levenshtein`; the result is named `levenshtein_distance`.
/// As the least number of single-character edits that turn one string into
/// the other, it is zero exactly when the strings are equal.
#[verifier::external_body]
fn levenshtein(a: &str, b: &str) -> (r: usize)
    ensures
        r == levenshtein_distance(a@, b@),
        (r == 0) == (a@ == b@),
{
    strsim::levenshtein(a, b)
}

/// Numerator of the dissimilarity `num / den` of `a` and `b`.
pub open spec fn sim_num(a: Seq<char>, b: Seq<char>) -> nat {
    if a.len() == 0 && b.len() == 0 {
        0
    } else {
        levenshtein_distance(a, b)
    }
}

/// Denominator of the dissimilarity: the longer length, at least 1.
pub open spec fn sim_den(a: Seq<char>, b: Seq<char>) -> nat {
    if a.len() == 0 && b.len() == 0 {
        1
    } else if a.len() >= b.len() {
        a.len()
    } else {
        b.len()
    }
}

/// The similarity `1 - an/ad` exceeds `1 - bn/bd`.
pub open spec fn more_similar(an: nat, ad: nat, bn: nat, bd: nat) -> bool {
    an * bd < bn * ad
}

/// Dissimilarity of two character slices as the fraction `(num, den)`.
pub fn dissimilarity(a: &[char], b: &[char]) -> (r: (usize, usize))
    ensures
        r.0 == sim_num(a@, b@),
        r.1 == sim_den(a@, b@),
        (r.0 == 0) == (a@ == b@),
        r.1 >= 1,
{
    if a.len() == 0 && b.len() == 0 {
        assert(a@ =~= b@);
        return (0, 1);
    }
    let sa = string_of(a);
    let sb = string_of(b);
    let d = levenshtein(sa.as_str(), sb.as_str());
    let m = if a.len() >= b.len() {
        a.len()
    } else {
        b.len()
    };
    (d, m)
}

/// Similarity `1 - n/d` above `0.6`.
pub fn sim_above_six_tenths(n: usize, d: usize) -> (r: bool)
    ensures
        r == (5 * n < 2 * d),
{
    (5 * (n as u128)) < 2 * (d as u128)
}

/// `1 - an/ad` is more similar than `1 - bn/bd`.
pub fn more_similar_exec(an: usize, ad: usize, bn: usize, bd: usize) -> (r: bool)
    ensures
        r == more_similar(an as nat, ad as nat, bn as nat, bd as nat),
{
    proof {
        assert((an as u128) * (bd as u128) <= (u64::MAX as u128) * (u64::MAX as u128)) by (nonlinear_arith)
            requires an <= u64::MAX, bd <= u64::MAX;
        assert((bn as u128) * (ad as u128) <= (u64::MAX as u128) * (u64::MAX as u128)) by (nonlinear_arith)
            requires bn <= u64::MAX, ad <= u64::MAX;
    }
    (an as u128) * (bd as u128) < (bn as u128) * (ad as u128)
}

proof fn lemma_gap_split(diff: int, z: int, q: int, r: int)
    requires
        diff >= 0,
        z >= 0,
        q == z / 10,
        r == z % 10,
    ensures
        (10 * diff < 3 * z) == (diff < 3 * q || (diff - 3 * q < 3 && 10 * (diff - 3 * q) < 3 * r)),
{
    assert(z == 10 * q + r && 0 <= r < 10) by (nonlinear_arith)
        requires q == z / 10, r == z % 10, z >= 0;
}

/// The similarity of the best candidate `1 - bn/bd` exceeds that of the
/// runner-up `1 - sn/sd` by less than `0.3`.
pub fn gap_below_three_tenths(bn: usize, bd: usize, sn: usize, sd: usize) -> (r: bool)
    requires
        bd >= 1,
        sd >= 1,
    ensures
        r == (10 * (sn * bd - bn * sd) < 3 * (bd * sd)),
{
    proof {
        assert((sn as u128) * (bd as u128) <= (u64::MAX as u128) * (u64::MAX as u128)) by (nonlinear_arith)
            requires sn <= u64::MAX, bd <= u64::MAX;
        assert((bn as u128) * (sd as u128) <= (u64::MAX as u128) * (u64::MAX as u128)) by (nonlinear_arith)
            requires bn <= u64::MAX, sd <= u64::MAX;
        assert((bd as u128) * (sd as u128) <= (u64::MAX as u128) * (u64::MAX as u128)) by (nonlinear_arith)
            requires bd <= u64::MAX, sd <= u64::MAX;
        assert((bd as u128) * (sd as u128) >= 1) by (nonlinear_arith)
            requires bd >= 1, sd >= 1;
    }
    let x: u128 = (sn as u128) * (bd as u128);
    let y: u128 = (bn as u128) * (sd as u128);
    let z: u128 = (bd as u128) * (sd as u128);
    if x <= y {
        return true;
    }
    let diff = x - y;
    let q = z / 10;
    let rem = z % 10;
    proof {
        lemma_gap_split(diff as int, z as int, q as int, rem as int);
    }
    if diff < 3 * q {
        return true;
    }
    let e = diff - 3 * q;
    if e >= 3 {
        return false;
    }
    10 * e < 3 * rem
}

} // verus!
