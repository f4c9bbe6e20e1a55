//! Levenshtein-guided block matching: the block-anchor strategy, which looks
//! for line blocks similar to the old string, and the context-aware
//! strategy, which locates a block by its first and last line.
//!
//! Similarities `1 - num / den` are compared as exact fractions.
use vstd::prelude::*;
use crate::edit_strategies::{finish_lines, outcome_view, positions, splice_outcome, splice_outcome_exec, Outcome};
use crate::similarity::{dissimilarity, gap_below_three_tenths, more_similar, more_similar_exec, sim_above_six_tenths, sim_den, sim_num};
use crate::text::{chars_eq, chars_of, copy_lines, join, join_vec, lines_of, lines_vec, trim, trim_vec, views};

verus! {

// ---------------------------------------------------------------------------
// Block anchor
// ---------------------------------------------------------------------------

/// The `n` lines of `cl` starting at `i`, joined by `'\n'`.
pub open spec fn block_text(cl: Seq<Seq<char>>, n: nat, i: int) -> Seq<char> {
    join(cl.subrange(i, i + n), "\n"@)
}

/// Dissimilarity numerator of the old block `ob` against the block at `i`.
pub open spec fn ba_num(ob: Seq<char>, cl: Seq<Seq<char>>, n: nat, i: int) -> nat {
    sim_num(ob, block_text(cl, n, i))
}

/// Dissimilarity denominator of the old block `ob` against the block at `i`.
pub open spec fn ba_den(ob: Seq<char>, cl: Seq<Seq<char>>, n: nat, i: int) -> nat {
    sim_den(ob, block_text(cl, n, i))
}

/// The block at `i` is a candidate: similarity above `0.6`.
pub open spec fn ba_pred(ob: Seq<char>, cl: Seq<Seq<char>>, n: nat) -> spec_fn(int) -> bool {
    |i: int| 5 * ba_num(ob, cl, n, i) < 2 * ba_den(ob, cl, n, i)
}

/// The block at `i` is more similar than the block at `k` by at least `0.3`.
pub open spec fn dominates(ob: Seq<char>, cl: Seq<Seq<char>>, n: nat, i: int, k: int) -> bool {
    10 * (ba_num(ob, cl, n, k) * ba_den(ob, cl, n, i) - ba_num(ob, cl, n, i) * ba_den(ob, cl, n, k))
        >= 3 * (ba_den(ob, cl, n, i) * ba_den(ob, cl, n, k))
}

/// Candidate `j` of `ms` dominates every other candidate.
pub open spec fn winner(ob: Seq<char>, cl: Seq<Seq<char>>, n: nat, ms: Seq<usize>, j: int) -> bool {
    &&& 0 <= j < ms.len()
    &&& forall|k: int| 0 <= k < ms.len() && k != j ==> dominates(ob, cl, n, ms[j] as int, #[trigger] ms[k] as int)
}

/// Fuzzy block matching: blocks with the old string's line count whose
/// similarity to it exceeds `0.6` are candidates. With `replace_all` every
/// candidate is replaced; otherwise a single candidate is, or, among
/// several, the one that beats every other by at least `0.3`. The outer
/// `None` marks inputs on which the splicing of overlapping candidates runs
/// past the end of the lines.
pub open spec fn block_anchor_spec(content: Seq<char>, old: Seq<char>, new: Seq<char>, replace_all: bool) -> Option<Outcome> {
    let ol = lines_of(old);
    let cl = lines_of(content);
    let n = ol.len();
    if n == 0 || n > cl.len() {
        Some(None)
    } else {
        let ob = join(ol, "\n"@);
        let ms = positions(cl.len() - n + 1, ba_pred(ob, cl, n));
        if ms.len() == 0 {
            Some(None)
        } else if replace_all || ms.len() == 1 {
            splice_outcome(content, cl, ms, n, lines_of(new))
        } else if exists|j: int| winner(ob, cl, n, ms, j) {
            let j = choose|j: int| winner(ob, cl, n, ms, j);
            splice_outcome(content, cl, seq![ms[j]], n, lines_of(new))
        } else {
            Some(None)
        }
    }
}

/// Fractions with positive denominators: `n1/d1 <= n2/d2` and
/// `n2/d2 <= n3/d3` give `n1/d1 <= n3/d3`.
proof fn lemma_frac_le_trans(n1: int, d1: int, n2: int, d2: int, n3: int, d3: int)
    requires
        d1 > 0,
        d2 > 0,
        d3 > 0,
        n1 * d2 <= n2 * d1,
        n2 * d3 <= n3 * d2,
    ensures
        n1 * d3 <= n3 * d1,
{
    assert(n1 * d2 * d3 <= n2 * d1 * d3) by (nonlinear_arith)
        requires n1 * d2 <= n2 * d1, d3 > 0;
    assert(n2 * d3 * d1 <= n3 * d2 * d1) by (nonlinear_arith)
        requires n2 * d3 <= n3 * d2, d1 > 0;
    assert(n1 * d3 * d2 <= n3 * d1 * d2) by (nonlinear_arith)
        requires n1 * d2 * d3 <= n2 * d1 * d3, n2 * d3 * d1 <= n3 * d2 * d1;
    assert(n1 * d3 <= n3 * d1) by (nonlinear_arith)
        requires n1 * d3 * d2 <= n3 * d1 * d2, d2 > 0;
}

/// If `b` beats `s` by `0.3` and `k` is no more similar than `s`, then `b`
/// beats `k` by `0.3`.
proof fn lemma_gap_extends(nb: int, db: int, ns: int, ds: int, nk: int, dk: int)
    requires
        db > 0,
        ds > 0,
        dk > 0,
        10 * (ns * db - nb * ds) >= 3 * (db * ds),
        nk * ds >= ns * dk,
    ensures
        10 * (nk * db - nb * dk) >= 3 * (db * dk),
{
    assert(10 * (ns * db * dk - nb * ds * dk) >= 3 * (db * ds * dk)) by (nonlinear_arith)
        requires 10 * (ns * db - nb * ds) >= 3 * (db * ds), dk > 0;
    assert(nk * ds * db >= ns * dk * db) by (nonlinear_arith)
        requires nk * ds >= ns * dk, db > 0;
    assert(ns * db * dk == ns * dk * db) by (nonlinear_arith);
    assert(ds * (10 * (nk * db - nb * dk) - 3 * (db * dk)) == 10 * (nk * ds * db) - 10 * (nb * ds * dk) - 3 * (db * ds * dk))
        by (nonlinear_arith);
    assert(ds * (10 * (nk * db - nb * dk) - 3 * (db * dk)) >= 0);
    assert(10 * (nk * db - nb * dk) >= 3 * (db * dk)) by (nonlinear_arith)
        requires ds * (10 * (nk * db - nb * dk) - 3 * (db * dk)) >= 0, ds > 0;
}

/// Beating by `0.3` means being strictly more similar.
proof fn lemma_gap_strict(nj: int, dj: int, nb: int, db: int)
    requires
        dj > 0,
        db > 0,
        10 * (nb * dj - nj * db) >= 3 * (dj * db),
    ensures
        nj * db < nb * dj,
{
    assert(dj * db > 0) by (nonlinear_arith)
        requires dj > 0, db > 0;
}

/// Index, in `ms`, of the first candidate with the smallest dissimilarity.
fn best_index(nums: &Vec<usize>, dens: &Vec<usize>) -> (bi: usize)
    requires
        nums.len() >= 1,
        nums.len() == dens.len(),
        forall|k: int| 0 <= k < dens.len() ==> dens[k] >= 1,
    ensures
        bi < nums.len(),
        forall|k: int|
            0 <= k < nums.len() ==> !more_similar(nums[k] as nat, dens[k] as nat, nums[bi as int] as nat, dens[bi as int] as nat),
{
    let mut bi: usize = 0;
    let mut k: usize = 1;
    while k < nums.len()
        invariant
            1 <= k <= nums.len(),
            nums.len() == dens.len(),
            forall|j: int| 0 <= j < dens.len() ==> dens[j] >= 1,
            bi < k,
            forall|j: int|
                0 <= j < k ==> !more_similar(nums[j] as nat, dens[j] as nat, nums[bi as int] as nat, dens[bi as int] as nat),
        decreases nums.len() - k,
    {
        if more_similar_exec(nums[k], dens[k], nums[bi], dens[bi]) {
            proof {
                assert forall|j: int| 0 <= j < k + 1 implies !more_similar(
                    nums[j] as nat,
                    dens[j] as nat,
                    nums[k as int] as nat,
                    dens[k as int] as nat,
                ) by {
                    if j < k {
                        lemma_frac_le_trans(
                            nums[k as int] as int, dens[k as int] as int,
                            nums[bi as int] as int, dens[bi as int] as int,
                            nums[j] as int, dens[j] as int,
                        );
                    }
                }
            }
            bi = k;
        }
        k = k + 1;
    }
    bi
}

/// Index of the most similar candidate other than `bi`.
fn second_index(nums: &Vec<usize>, dens: &Vec<usize>, bi: usize) -> (si: usize)
    requires
        nums.len() >= 2,
        nums.len() == dens.len(),
        bi < nums.len(),
        forall|k: int| 0 <= k < dens.len() ==> dens[k] >= 1,
    ensures
        si < nums.len(),
        si != bi,
        forall|k: int|
            0 <= k < nums.len() && k != bi ==> !more_similar(
                nums[k] as nat,
                dens[k] as nat,
                nums[si as int] as nat,
                dens[si as int] as nat,
            ),
{
    let mut si: usize = if bi == 0 { 1 } else { 0 };
    let mut k: usize = 0;
    while k < nums.len()
        invariant
            k <= nums.len(),
            nums.len() == dens.len(),
            forall|j: int| 0 <= j < dens.len() ==> dens[j] >= 1,
            si < nums.len(),
            si != bi,
            bi < nums.len(),
            forall|j: int|
                0 <= j < k && j != bi ==> !more_similar(
                    nums[j] as nat,
                    dens[j] as nat,
                    nums[si as int] as nat,
                    dens[si as int] as nat,
                ),
        decreases nums.len() - k,
    {
        if k != bi && more_similar_exec(nums[k], dens[k], nums[si], dens[si]) {
            proof {
                assert forall|j: int| 0 <= j < k + 1 && j != bi implies !more_similar(
                    nums[j] as nat,
                    dens[j] as nat,
                    nums[k as int] as nat,
                    dens[k as int] as nat,
                ) by {
                    if j < k {
                        lemma_frac_le_trans(
                            nums[k as int] as int, dens[k as int] as int,
                            nums[si as int] as int, dens[si as int] as int,
                            nums[j] as int, dens[j] as int,
                        );
                    }
                }
            }
            si = k;
        }
        k = k + 1;
    }
    si
}

/// Runs `block_anchor_spec`.
pub fn block_anchor_exec(content: &[char], old: &[char], new: &[char], replace_all: bool) -> (r: Option<Option<(Vec<char>, usize)>>)
    ensures
        match r {
            None => block_anchor_spec(content@, old@, new@, replace_all) is None,
            Some(o) => block_anchor_spec(content@, old@, new@, replace_all) == Some(outcome_view(o)),
        },
{
    let ol = lines_vec(old);
    let cl = lines_vec(content);
    if ol.len() == 0 || ol.len() > cl.len() {
        return Some(None);
    }
    let n = ol.len();
    let nl = chars_of("\n");
    let ob = join_vec(&ol, &nl);
    let ghost clv = views(cl@);
    let ghost pred = ba_pred(ob@, clv, n as nat);
    let mut ms: Vec<usize> = Vec::new();
    let mut nums: Vec<usize> = Vec::new();
    let mut dens: Vec<usize> = Vec::new();
    let bound = cl.len() - n;
    let mut i: usize = 0;
    while i <= bound
        invariant
            bound == cl.len() - n,
            n == ol.len(),
            n >= 1,
            i <= bound + 1,
            clv == views(cl@),
            nl@ == "\n"@,
            pred == ba_pred(ob@, clv, n as nat),
            ms@ == positions(i as int, pred),
            nums.len() == ms.len(),
            dens.len() == ms.len(),
            forall|k: int| 0 <= k < ms.len() ==> #[trigger] nums[k] == ba_num(ob@, clv, n as nat, ms[k] as int),
            forall|k: int| 0 <= k < ms.len() ==> #[trigger] dens[k] == ba_den(ob@, clv, n as nat, ms[k] as int),
        decreases bound + 1 - i,
    {
        let block = copy_lines(&cl, i, i + n);
        let bt = join_vec(&block, &nl);
        let (num, den) = dissimilarity(&ob, &bt);
        assert(bt@ == block_text(clv, n as nat, i as int));
        if sim_above_six_tenths(num, den) {
            ms.push(i);
            nums.push(num);
            dens.push(den);
        }
        assert(positions(i + 1, pred) == if pred(i as int) {
            positions(i as int, pred).push(i)
        } else {
            positions(i as int, pred)
        });
        i = i + 1;
    }
    if ms.len() == 0 {
        return Some(None);
    }
    let new_lines = lines_vec(new);
    if replace_all || ms.len() == 1 {
        return splice_outcome_exec(content, cl, &ms, n, &new_lines);
    }
    proof {
        assert forall|k: int| 0 <= k < dens.len() implies dens[k] >= 1 by {
            assert(dens[k] == ba_den(ob@, clv, n as nat, ms[k] as int));
        }
    }
    let bi = best_index(&nums, &dens);
    let si = second_index(&nums, &dens, bi);
    let ghost obv = ob@;
    let ghost msv = ms@;
    if gap_below_three_tenths(nums[bi], dens[bi], nums[si], dens[si]) {
        proof {
            assert forall|j: int| !winner(obv, clv, n as nat, msv, j) by {
                if winner(obv, clv, n as nat, msv, j) {
                    if j == bi {
                        assert(dominates(obv, clv, n as nat, msv[j] as int, msv[si as int] as int));
                    } else {
                        assert(dominates(obv, clv, n as nat, msv[j] as int, msv[bi as int] as int));
                        lemma_gap_strict(
                            nums[j] as int, dens[j] as int,
                            nums[bi as int] as int, dens[bi as int] as int,
                        );
                    }
                }
            }
        }
        return Some(None);
    }
    proof {
        assert forall|k: int| 0 <= k < msv.len() && k != bi implies dominates(
            obv, clv, n as nat, msv[bi as int] as int, #[trigger] msv[k] as int,
        ) by {
            lemma_gap_extends(
                nums[bi as int] as int, dens[bi as int] as int,
                nums[si as int] as int, dens[si as int] as int,
                nums[k] as int, dens[k] as int,
            );
        }
        assert(winner(obv, clv, n as nat, msv, bi as int));
        let c = choose|j: int| winner(obv, clv, n as nat, msv, j);
        assert(winner(obv, clv, n as nat, msv, c));
        if c != bi {
            assert(dominates(obv, clv, n as nat, msv[c] as int, msv[bi as int] as int));
            lemma_gap_strict(
                nums[c] as int, dens[c] as int,
                nums[bi as int] as int, dens[bi as int] as int,
            );
        }
    }
    let mut starts: Vec<usize> = Vec::new();
    starts.push(ms[bi]);
    assert(starts@ =~= seq![msv[bi as int]]);
    splice_outcome_exec(content, cl, &starts, n, &new_lines)
}

// ---------------------------------------------------------------------------
// Context aware
// ---------------------------------------------------------------------------

/// First index `>= i` whose trimmed line is `t`, or -1.
pub open spec fn first_trimmed(cl: Seq<Seq<char>>, t: Seq<char>, i: int) -> int
    decreases cl.len() - i,
{
    if i < 0 || i >= cl.len() {
        -1
    } else if trim(cl[i]) == t {
        i
    } else {
        first_trimmed(cl, t, i + 1)
    }
}

/// Last index in `lo..hi` whose trimmed line is `t`, or -1.
pub open spec fn last_trimmed(cl: Seq<Seq<char>>, t: Seq<char>, lo: int, hi: int) -> int
    decreases hi - lo,
{
    if hi <= lo {
        -1
    } else if trim(cl[hi - 1]) == t {
        hi - 1
    } else {
        last_trimmed(cl, t, lo, hi - 1)
    }
}

/// Anchored matching: the first content line whose trimmed text is the old
/// string's trimmed first line starts the block, and the last line from there
/// on whose trimmed text is the old string's trimmed last line ends it. The
/// block must have the old string's line count and a similarity to it of at
/// least `0.7`; it is replaced by the new lines.
pub open spec fn context_aware_spec(content: Seq<char>, old: Seq<char>, new: Seq<char>) -> Outcome {
    let ol = lines_of(old);
    if ol.len() < 2 {
        None
    } else {
        let first = trim(ol[0]);
        let last = trim(ol.last());
        if first.len() == 0 || last.len() == 0 {
            None
        } else {
            let cl = lines_of(content);
            let s = first_trimmed(cl, first, 0);
            if s < 0 {
                None
            } else {
                let e = last_trimmed(cl, last, s, cl.len() as int);
                if e < 0 || e - s + 1 != ol.len() {
                    None
                } else {
                    let bt = join(cl.subrange(s, e + 1), "\n"@);
                    let ot = join(ol, "\n"@);
                    if 10 * sim_num(bt, ot) > 3 * sim_den(bt, ot) {
                        None
                    } else {
                        Some((finish_lines(content, cl.take(s) + lines_of(new) + cl.skip(e + 1)), 1))
                    }
                }
            }
        }
    }
}

proof fn lemma_first_trimmed_range(cl: Seq<Seq<char>>, t: Seq<char>, i: int)
    ensures
        first_trimmed(cl, t, i) == -1 || (i <= first_trimmed(cl, t, i) < cl.len()),
    decreases cl.len() - i,
{
    if !(i < 0 || i >= cl.len()) && trim(cl[i]) != t {
        lemma_first_trimmed_range(cl, t, i + 1);
    }
}

proof fn lemma_last_trimmed_range(cl: Seq<Seq<char>>, t: Seq<char>, lo: int, hi: int)
    ensures
        last_trimmed(cl, t, lo, hi) == -1 || (lo <= last_trimmed(cl, t, lo, hi) < hi),
    decreases hi - lo,
{
    if hi > lo && trim(cl[hi - 1]) != t {
        lemma_last_trimmed_range(cl, t, lo, hi - 1);
    }
}

/// Runs `context_aware_spec`.
pub fn context_aware_exec(content: &[char], old: &[char], new: &[char]) -> (r: Option<(Vec<char>, usize)>)
    ensures
        outcome_view(r) == context_aware_spec(content@, old@, new@),
{
    let ol = lines_vec(old);
    if ol.len() < 2 {
        return None;
    }
    let first = trim_vec(&ol[0]);
    let last = trim_vec(&ol[ol.len() - 1]);
    assert(views(ol@)[0] == ol@[0]@);
    assert(views(ol@).last() == ol@[ol@.len() - 1]@);
    if first.len() == 0 || last.len() == 0 {
        return None;
    }
    let cl = lines_vec(content);
    let ghost clv = views(cl@);
    // first anchor
    let mut s: usize = 0;
    let mut found = false;
    while s < cl.len() && !found
        invariant
            s <= cl.len(),
            clv == views(cl@),
            found ==> s < cl.len(),
            first_trimmed(clv, first@, 0) == if found { s as int } else { first_trimmed(clv, first@, s as int) },
        decreases cl.len() - s + (if found { 0int } else { 1int }),
    {
        let t = trim_vec(&cl[s]);
        assert(clv[s as int] == cl@[s as int]@);
        if chars_eq(&t, &first) {
            found = true;
        } else {
            s = s + 1;
        }
    }
    if !found {
        return None;
    }
    // last anchor, searched backwards from the end
    let mut h: usize = cl.len();
    let mut found_last = false;
    while h > s && !found_last
        invariant
            s < cl.len(),
            s <= h <= cl.len(),
            clv == views(cl@),
            found_last ==> h > s,
            last_trimmed(clv, last@, s as int, cl.len() as int) == if found_last {
                h - 1
            } else {
                last_trimmed(clv, last@, s as int, h as int)
            },
        decreases h + (if found_last { 0int } else { 1int }),
    {
        let t = trim_vec(&cl[h - 1]);
        assert(clv[h - 1] == cl@[h - 1]@);
        if chars_eq(&t, &last) {
            found_last = true;
        } else {
            h = h - 1;
        }
    }
    if !found_last {
        return None;
    }
    let e = h - 1;
    if e - s + 1 != ol.len() {
        return None;
    }
    let nl = chars_of("\n");
    let block = copy_lines(&cl, s, e + 1);
    let bt = join_vec(&block, &nl);
    let ot = join_vec(&ol, &nl);
    let (num, den) = dissimilarity(&bt, &ot);
    if 10 * (num as u128) > 3 * (den as u128) {
        return None;
    }
    let new_lines = lines_vec(new);
    let rl = copy_lines(&cl, 0, s);
    let tail = copy_lines(&cl, e + 1, cl.len());
    let rl2 = concat_lines(rl, &new_lines, &tail);
    proof {
        assert(clv.subrange(0, s as int) =~= clv.take(s as int));
        assert(clv.subrange(e + 1, clv.len() as int) =~= clv.skip(e + 1));
    }
    let out = crate::edit_strategies::finish_lines_exec(content, &rl2);
    Some((out, 1))
}

/// `a ++ b ++ c` of line vectors.
fn concat_lines(a: Vec<Vec<char>>, b: &Vec<Vec<char>>, c: &Vec<Vec<char>>) -> (r: Vec<Vec<char>>)
    ensures
        views(r@) == views(a@) + views(b@) + views(c@),
{
    let mut r = a;
    crate::edit_strategies::append_lines(&mut r, b);
    crate::edit_strategies::append_lines(&mut r, c);
    r
}

} // verus!
