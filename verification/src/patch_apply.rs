//! Patch application: locating chunks in a file (four passes of
//! increasingly loose line comparison), computing the replacements, and
//! applying them.
use vstd::prelude::*;
use unicode_normalization::UnicodeNormalization;
use crate::edit::{normalize_line_endings, normalize_line_endings_spec};
use crate::patch_parse::{chunk_view, chunks_view, hunk_view, opt_string_view, parse_patch, parse_patch_spec, strings_view, ChunkModel, Hunk, HunkModel, UpdateChunk, hunks_view};
use crate::text::{append_chars, append_str, chars_eq, chars_of, join, join_vec, lemma_views_push, split_on, split_vec, string_of, trim, trim_end, trim_end_vec, trim_vec, views};

verus! {

// ---------------------------------------------------------------------------
// Unicode normalization
// ---------------------------------------------------------------------------

/// The NFKC normal form of `s`, as `unicode-normalization` computes it.
pub uninterp spec fn nfkc_form(s: Seq<char>) -> Seq<char>;

/// Calls `UnicodeNormalization::nfkc` of `unicode-normalization` on `s` and
/// collects the characters; the result is named `nfkc_form`.
#[verifier::external_body]
fn normalize_unicode(s: &str) -> (r: String)
    ensures
        r@ == nfkc_form(s@),
{
    s.nfkc().collect()
}

// ---------------------------------------------------------------------------
// Sequence matching
// ---------------------------------------------------------------------------

/// Line comparison of each pass: exact, trailing whitespace ignored,
/// surrounding whitespace ignored, and NFKC-normalized after trimming.
pub open spec fn line_eq(pass: nat, a: Seq<char>, b: Seq<char>) -> bool {
    if pass == 0 {
        a == b
    } else if pass == 1 {
        trim_end(a) == trim_end(b)
    } else if pass == 2 {
        trim(a) == trim(b)
    } else {
        nfkc_form(trim(a)) == nfkc_form(trim(b))
    }
}

/// `pattern` matches the lines at `i` under the comparison of `pass`.
pub open spec fn matches_at(lines: Seq<Seq<char>>, pattern: Seq<Seq<char>>, pass: nat, i: int) -> bool {
    forall|j: int| 0 <= j < pattern.len() ==> #[trigger] line_eq(pass, lines[i + j], pattern[j])
}

/// First position in `i..=max` at which `pattern` matches.
pub open spec fn first_match(lines: Seq<Seq<char>>, pattern: Seq<Seq<char>>, pass: nat, i: int, max: int) -> Option<nat>
    decreases max + 1 - i,
{
    if i < 0 || i > max {
        None
    } else if matches_at(lines, pattern, pass, i) {
        Some(i as nat)
    } else {
        first_match(lines, pattern, pass, i + 1, max)
    }
}

/// One pass: with `eof`, the end of the file is tried first; then the
/// first match at or after `start`.
pub open spec fn try_match_spec(lines: Seq<Seq<char>>, pattern: Seq<Seq<char>>, start: nat, pass: nat, eof: bool) -> Option<nat> {
    if pattern.len() == 0 || pattern.len() > lines.len() {
        None
    } else {
        let from_end = lines.len() - pattern.len();
        if eof && from_end >= start && matches_at(lines, pattern, pass, from_end) {
            Some(from_end as nat)
        } else {
            first_match(lines, pattern, pass, start as int, from_end)
        }
    }
}

/// Where `pattern` is found in `lines` at or after `start`: the result of
/// the first of the four passes that finds it.
pub open spec fn seek_sequence_spec(lines: Seq<Seq<char>>, pattern: Seq<Seq<char>>, start: nat, eof: bool) -> Option<nat> {
    if pattern.len() == 0 {
        None
    } else if try_match_spec(lines, pattern, start, 0, eof) is Some {
        try_match_spec(lines, pattern, start, 0, eof)
    } else if try_match_spec(lines, pattern, start, 1, eof) is Some {
        try_match_spec(lines, pattern, start, 1, eof)
    } else if try_match_spec(lines, pattern, start, 2, eof) is Some {
        try_match_spec(lines, pattern, start, 2, eof)
    } else {
        try_match_spec(lines, pattern, start, 3, eof)
    }
}

proof fn lemma_first_match_bounds(lines: Seq<Seq<char>>, pattern: Seq<Seq<char>>, pass: nat, i: int, max: int)
    ensures
        first_match(lines, pattern, pass, i, max) matches Some(k) ==> i <= k <= max && matches_at(lines, pattern, pass, k as int),
    decreases max + 1 - i,
{
    if !(i < 0 || i > max) && !matches_at(lines, pattern, pass, i) {
        lemma_first_match_bounds(lines, pattern, pass, i + 1, max);
    }
}

/// A found sequence lies within the lines, at or after the start.
pub proof fn lemma_seek_sequence_bounds(lines: Seq<Seq<char>>, pattern: Seq<Seq<char>>, start: nat, eof: bool)
    ensures
        seek_sequence_spec(lines, pattern, start, eof) matches Some(k) ==> k + pattern.len() <= lines.len() && (
        k >= start),
{
    if pattern.len() > 0 && pattern.len() <= lines.len() {
        let from_end = lines.len() - pattern.len();
        lemma_first_match_bounds(lines, pattern, 0, start as int, from_end);
        lemma_first_match_bounds(lines, pattern, 1, start as int, from_end);
        lemma_first_match_bounds(lines, pattern, 2, start as int, from_end);
        lemma_first_match_bounds(lines, pattern, 3, start as int, from_end);
    }
}

/// Characters of each string.
fn lines_of_strings(v: &[String]) -> (r: Vec<Vec<char>>)
    ensures
        views(r@) == strings_view(v@),
{
    let mut out: Vec<Vec<char>> = Vec::new();
    let mut i: usize = 0;
    while i < v.len()
        invariant
            i <= v.len(),
            views(out@) == strings_view(v@).take(i as int),
        decreases v.len() - i,
    {
        let cs = chars_of(v[i].as_str());
        proof {
            lemma_views_push(out@, cs);
            assert(strings_view(v@).take(i + 1) =~= strings_view(v@).take(i as int).push(v@[i as int]@));
        }
        out.push(cs);
        i = i + 1;
    }
    assert(strings_view(v@).take(v@.len() as int) =~= strings_view(v@));
    out
}

/// `line_eq` of a pass.
fn line_eq_exec(pass: u8, a: &[char], b: &[char]) -> (r: bool)
    ensures
        r == line_eq(pass as nat, a@, b@),
{
    if pass == 0 {
        chars_eq(a, b)
    } else if pass == 1 {
        chars_eq(&trim_end_vec(a), &trim_end_vec(b))
    } else if pass == 2 {
        chars_eq(&trim_vec(a), &trim_vec(b))
    } else {
        let ta = string_of(&trim_vec(a));
        let tb = string_of(&trim_vec(b));
        let na = normalize_unicode(ta.as_str());
        let nb = normalize_unicode(tb.as_str());
        chars_eq(&chars_of(na.as_str()), &chars_of(nb.as_str()))
    }
}

fn matches_at_exec(lines: &Vec<Vec<char>>, pattern: &Vec<Vec<char>>, pass: u8, i: usize) -> (r: bool)
    requires
        i + pattern.len() <= lines.len(),
    ensures
        r == matches_at(views(lines@), views(pattern@), pass as nat, i as int),
{
    let mut j: usize = 0;
    while j < pattern.len()
        invariant
            j <= pattern.len(),
            i + pattern.len() <= lines.len(),
            forall|k: int| 0 <= k < j ==> #[trigger] line_eq(pass as nat, views(lines@)[i + k], views(pattern@)[k]),
        decreases pattern.len() - j,
    {
        let eq = line_eq_exec(pass, &lines[i + j], &pattern[j]);
        assert(views(lines@)[i + j] == lines@[i + j]@);
        assert(views(pattern@)[j as int] == pattern@[j as int]@);
        if !eq {
            return false;
        }
        j = j + 1;
    }
    true
}

fn try_match_exec(lines: &Vec<Vec<char>>, pattern: &Vec<Vec<char>>, start: usize, pass: u8, eof: bool) -> (r: Option<usize>)
    ensures
        match r {
            Some(k) => try_match_spec(views(lines@), views(pattern@), start as nat, pass as nat, eof) == Some(k as nat),
            None => try_match_spec(views(lines@), views(pattern@), start as nat, pass as nat, eof) is None,
        },
{
    if pattern.len() == 0 || pattern.len() > lines.len() {
        return None;
    }
    let from_end = lines.len() - pattern.len();
    if eof && from_end >= start && matches_at_exec(lines, pattern, pass, from_end) {
        return Some(from_end);
    }
    let ghost lv = views(lines@);
    let ghost pv = views(pattern@);
    let mut i = start;
    while i <= from_end
        invariant
            from_end == lines.len() - pattern.len(),
            0 < pattern.len() <= lines.len(),
            lv == views(lines@),
            pv == views(pattern@),
            i >= start,
            !(eof && from_end >= start && matches_at(lv, pv, pass as nat, from_end as int)),
            first_match(lv, pv, pass as nat, start as int, from_end as int) == first_match(lv, pv, pass as nat, i as int, from_end as int),
        decreases from_end + 1 - i,
    {
        if matches_at_exec(lines, pattern, pass, i) {
            return Some(i);
        }
        i = i + 1;
    }
    None
}

/// Where `pattern` occurs in `lines` at or after `start_index`, trying exact
/// comparison, then trailing whitespace ignored, then surrounding whitespace
/// ignored, then Unicode NFKC normalization.
pub fn seek_sequence(lines: &[String], pattern: &[String], start_index: usize, eof: bool) -> (r: Option<usize>)
    ensures
        match r {
            Some(k) => seek_sequence_spec(strings_view(lines@), strings_view(pattern@), start_index as nat, eof) == Some(k as nat),
            None => seek_sequence_spec(strings_view(lines@), strings_view(pattern@), start_index as nat, eof) is None,
        },
{
    let ls = lines_of_strings(lines);
    let ps = lines_of_strings(pattern);
    seek_in(&ls, &ps, start_index, eof)
}

fn seek_in(ls: &Vec<Vec<char>>, ps: &Vec<Vec<char>>, start_index: usize, eof: bool) -> (r: Option<usize>)
    ensures
        match r {
            Some(k) => seek_sequence_spec(views(ls@), views(ps@), start_index as nat, eof) == Some(k as nat),
            None => seek_sequence_spec(views(ls@), views(ps@), start_index as nat, eof) is None,
        },
{
    if ps.len() == 0 {
        return None;
    }
    if let Some(i) = try_match_exec(ls, ps, start_index, 0, eof) {
        return Some(i);
    }
    if let Some(i) = try_match_exec(ls, ps, start_index, 1, eof) {
        return Some(i);
    }
    if let Some(i) = try_match_exec(ls, ps, start_index, 2, eof) {
        return Some(i);
    }
    try_match_exec(ls, ps, start_index, 3, eof)
}

// ---------------------------------------------------------------------------
// Replacements
// ---------------------------------------------------------------------------

/// A replacement: start line, number of lines replaced, new lines.
pub type Rep = (nat, nat, Seq<Seq<char>>);

pub open spec fn rep_view(r: (usize, usize, Vec<String>)) -> Rep {
    (r.0 as nat, r.1 as nat, strings_view(r.2@))
}

pub open spec fn reps_view(v: Seq<(usize, usize, Vec<String>)>) -> Seq<Rep> {
    v.map_values(|r: (usize, usize, Vec<String>)| rep_view(r))
}

/// Where a chunk without old lines inserts: before a final empty line, else
/// at the end.
pub open spec fn insertion_index(orig: Seq<Seq<char>>) -> nat {
    if orig.len() > 0 && orig.last().len() == 0 {
        (orig.len() - 1) as nat
    } else {
        orig.len()
    }
}

/// Error for a context line that is not found.
pub open spec fn context_err(context: Seq<char>, path: Seq<char>) -> Seq<char> {
    "Failed to find context '"@ + context + "' in "@ + path
}

/// Error for old lines that are not found.
pub open spec fn lines_err(path: Seq<char>, old: Seq<Seq<char>>) -> Seq<char> {
    "Failed to find expected lines in "@ + path + ":\n"@ + join(old, "\n"@)
}

/// Where the chunk's search starts, after its context line if it has one.
pub open spec fn chunk_start(orig: Seq<Seq<char>>, path: Seq<char>, c: ChunkModel, li: nat) -> Result<nat, Seq<char>> {
    match c.context {
        None => Ok(li),
        Some(ctx) => match seek_sequence_spec(orig, seq![ctx], li, false) {
            None => Err(context_err(ctx, path)),
            Some(idx) => Ok(idx + 1),
        },
    }
}

/// The old lines to search and the new lines to put in, when the old lines
/// are first found as they are (`retry == false`) or without a final empty
/// line (`retry == true`).
pub open spec fn retry_pattern(c: ChunkModel) -> (Seq<Seq<char>>, Seq<Seq<char>>) {
    let ns = if c.new_lines.len() > 0 && c.new_lines.last().len() == 0 {
        c.new_lines.drop_last()
    } else {
        c.new_lines
    };
    (c.old_lines.drop_last(), ns)
}

/// The replacements of the chunks from the `k`-th on, searching from line
/// `li`, appended to `acc`.
pub open spec fn reps_from(orig: Seq<Seq<char>>, path: Seq<char>, chunks: Seq<ChunkModel>, k: nat, li: nat, acc: Seq<Rep>) -> Result<Seq<Rep>, Seq<char>>
    decreases chunks.len() - k,
{
    if k >= chunks.len() {
        Ok(acc)
    } else {
        let c = chunks[k as int];
        match chunk_start(orig, path, c, li) {
            Err(e) => Err(e),
            Ok(li2) => if c.old_lines.len() == 0 {
                reps_from(orig, path, chunks, k + 1, li2, acc.push((insertion_index(orig), 0nat, c.new_lines)))
            } else {
                match seek_sequence_spec(orig, c.old_lines, li2, c.is_end_of_file) {
                    Some(idx) => reps_from(
                        orig,
                        path,
                        chunks,
                        k + 1,
                        idx + c.old_lines.len(),
                        acc.push((idx, c.old_lines.len(), c.new_lines)),
                    ),
                    None => if c.old_lines.last().len() == 0 {
                        let (pat, ns) = retry_pattern(c);
                        match seek_sequence_spec(orig, pat, li2, c.is_end_of_file) {
                            Some(idx) => reps_from(orig, path, chunks, k + 1, idx + pat.len(), acc.push((idx, pat.len(), ns))),
                            None => Err(lines_err(path, c.old_lines)),
                        }
                    } else {
                        Err(lines_err(path, c.old_lines))
                    },
                }
            },
        }
    }
}

/// `x` put after the elements of the sorted `s` whose start is at most its
/// own.
pub open spec fn insert_by_start(s: Seq<Rep>, x: Rep) -> Seq<Rep>
    decreases s.len(),
{
    if s.len() == 0 {
        seq![x]
    } else if s.last().0 <= x.0 {
        s.push(x)
    } else {
        insert_by_start(s.drop_last(), x).push(s.last())
    }
}

/// Stable sort by start.
pub open spec fn sort_by_start(s: Seq<Rep>) -> Seq<Rep>
    decreases s.len(),
{
    if s.len() == 0 {
        seq![]
    } else {
        insert_by_start(sort_by_start(s.drop_last()), s.last())
    }
}

/// The replacements for the chunks of a file, sorted by start.
pub open spec fn compute_replacements_spec(orig: Seq<Seq<char>>, path: Seq<char>, chunks: Seq<ChunkModel>) -> Result<Seq<Rep>, Seq<char>> {
    match reps_from(orig, path, chunks, 0, 0, seq![]) {
        Ok(r) => Ok(sort_by_start(r)),
        Err(e) => Err(e),
    }
}

/// The replacements applied from the last to the first; `None` when a start
/// lies past the end of the lines as they are at that point, or a start plus
/// its length overflows.
pub open spec fn apply_reps(lines: Seq<Seq<char>>, reps: Seq<Rep>) -> Option<Seq<Seq<char>>>
    decreases reps.len(),
{
    if reps.len() == 0 {
        Some(lines)
    } else {
        let r = reps.last();
        if r.0 > lines.len() || r.0 + r.1 > usize::MAX {
            None
        } else {
            let end: int = if r.0 + r.1 < lines.len() { (r.0 + r.1) as int } else { lines.len() as int };
            apply_reps(lines.take(r.0 as int) + r.2 + lines.skip(end), reps.drop_last())
        }
    }
}

// ---------------------------------------------------------------------------
// Laws of the replacements
// ---------------------------------------------------------------------------

/// A replacement fits in a file of `n` lines.
pub open spec fn rep_fits(r: Rep, n: nat) -> bool {
    r.0 + r.1 <= n
}

/// Starts never decrease.
pub open spec fn sorted_by_start(s: Seq<Rep>) -> bool {
    forall|i: int, j: int| 0 <= i <= j < s.len() ==> s[i].0 <= s[j].0
}

proof fn lemma_insert_props(s: Seq<Rep>, x: Rep, n: nat)
    requires
        sorted_by_start(s),
        forall|i: int| 0 <= i < s.len() ==> rep_fits(#[trigger] s[i], n),
        rep_fits(x, n),
    ensures
        sorted_by_start(insert_by_start(s, x)),
        forall|i: int| 0 <= i < insert_by_start(s, x).len() ==> rep_fits(#[trigger] insert_by_start(s, x)[i], n),
        insert_by_start(s, x).len() == s.len() + 1,
        s.len() > 0 ==> insert_by_start(s, x).last().0 >= s.last().0,
        insert_by_start(s, x).last().0 >= x.0,
    decreases s.len(),
{
    if s.len() == 0 {
    } else if s.last().0 <= x.0 {
        let t = s.push(x);
        assert forall|i: int, j: int| 0 <= i <= j < t.len() implies t[i].0 <= t[j].0 by {
            if j == t.len() - 1 && i < j {
                assert(s[i].0 <= s[s.len() - 1].0);
            }
        }
    } else {
        let d = s.drop_last();
        assert forall|i: int, j: int| 0 <= i <= j < d.len() implies d[i].0 <= d[j].0 by {
            assert(s[i].0 <= s[j].0);
        }
        lemma_insert_props(d, x, n);
        let u = insert_by_start(d, x);
        let t = u.push(s.last());
        assert forall|i: int, j: int| 0 <= i <= j < t.len() implies t[i].0 <= t[j].0 by {
            if j == t.len() - 1 && i < j {
                assert(u[i].0 <= u.last().0);
                if d.len() > 0 {
                    assert(d.last().0 <= s.last().0);
                }
            }
        }
    }
}

proof fn lemma_sort_props(s: Seq<Rep>, n: nat)
    requires
        forall|i: int| 0 <= i < s.len() ==> rep_fits(#[trigger] s[i], n),
    ensures
        sorted_by_start(sort_by_start(s)),
        forall|i: int| 0 <= i < sort_by_start(s).len() ==> rep_fits(#[trigger] sort_by_start(s)[i], n),
    decreases s.len(),
{
    if s.len() > 0 {
        let d = s.drop_last();
        assert forall|i: int| 0 <= i < d.len() implies rep_fits(#[trigger] d[i], n) by {
            assert(d[i] == s[i]);
        }
        lemma_sort_props(d, n);
        lemma_insert_props(sort_by_start(d), s.last(), n);
    }
}

proof fn lemma_reps_from_fit(orig: Seq<Seq<char>>, path: Seq<char>, chunks: Seq<ChunkModel>, k: nat, li: nat, acc: Seq<Rep>)
    requires
        forall|i: int| 0 <= i < acc.len() ==> rep_fits(#[trigger] acc[i], orig.len()),
    ensures
        reps_from(orig, path, chunks, k, li, acc) matches Ok(r) ==> forall|i: int|
            0 <= i < r.len() ==> rep_fits(#[trigger] r[i], orig.len()),
    decreases chunks.len() - k,
{
    if k < chunks.len() {
        let c = chunks[k as int];
        match chunk_start(orig, path, c, li) {
            Err(e) => {},
            Ok(li2) => {
                if c.old_lines.len() == 0 {
                    let a2 = acc.push((insertion_index(orig), 0nat, c.new_lines));
                    assert forall|i: int| 0 <= i < a2.len() implies rep_fits(#[trigger] a2[i], orig.len()) by {
                        if i < acc.len() {
                            assert(a2[i] == acc[i]);
                        }
                    }
                    lemma_reps_from_fit(orig, path, chunks, k + 1, li2, a2);
                } else {
                    lemma_seek_sequence_bounds(orig, c.old_lines, li2, c.is_end_of_file);
                    match seek_sequence_spec(orig, c.old_lines, li2, c.is_end_of_file) {
                        Some(idx) => {
                            let a2 = acc.push((idx, c.old_lines.len(), c.new_lines));
                            assert forall|i: int| 0 <= i < a2.len() implies rep_fits(#[trigger] a2[i], orig.len()) by {
                                if i < acc.len() {
                                    assert(a2[i] == acc[i]);
                                }
                            }
                            lemma_reps_from_fit(orig, path, chunks, k + 1, idx + c.old_lines.len(), a2);
                        },
                        None => {
                            if c.old_lines.last().len() == 0 {
                                let (pat, ns) = retry_pattern(c);
                                lemma_seek_sequence_bounds(orig, pat, li2, c.is_end_of_file);
                                match seek_sequence_spec(orig, pat, li2, c.is_end_of_file) {
                                    Some(idx) => {
                                        let a2 = acc.push((idx, pat.len(), ns));
                                        assert forall|i: int| 0 <= i < a2.len() implies rep_fits(#[trigger] a2[i], orig.len()) by {
                                            if i < acc.len() {
                                                assert(a2[i] == acc[i]);
                                            }
                                        }
                                        lemma_reps_from_fit(orig, path, chunks, k + 1, idx + pat.len(), a2);
                                    },
                                    None => {},
                                }
                            }
                        },
                    }
                }
            },
        }
    }
}

proof fn lemma_apply_sorted(lines: Seq<Seq<char>>, reps: Seq<Rep>, n: nat)
    requires
        n <= usize::MAX,
        sorted_by_start(reps),
        forall|i: int| 0 <= i < reps.len() ==> rep_fits(#[trigger] reps[i], n),
        reps.len() > 0 ==> reps.last().0 <= lines.len(),
    ensures
        apply_reps(lines, reps) is Some,
    decreases reps.len(),
{
    if reps.len() > 0 {
        let r = reps.last();
        assert(rep_fits(reps[reps.len() - 1], n));
        let end: int = if r.0 + r.1 < lines.len() { (r.0 + r.1) as int } else { lines.len() as int };
        let l2 = lines.take(r.0 as int) + r.2 + lines.skip(end);
        let d = reps.drop_last();
        assert forall|i: int, j: int| 0 <= i <= j < d.len() implies d[i].0 <= d[j].0 by {
            assert(reps[i].0 <= reps[j].0);
        }
        assert forall|i: int| 0 <= i < d.len() implies rep_fits(#[trigger] d[i], n) by {
            assert(d[i] == reps[i]);
        }
        if d.len() > 0 {
            assert(reps[d.len() - 1].0 <= reps[reps.len() - 1].0);
        }
        lemma_apply_sorted(l2, d, n);
    }
}

/// The replacements computed for a file always apply to its lines: each lies
/// within the file and they are sorted by start.
pub proof fn lemma_computed_replacements_apply(orig: Seq<Seq<char>>, path: Seq<char>, chunks: Seq<ChunkModel>)
    requires
        orig.len() <= usize::MAX,
    ensures
        compute_replacements_spec(orig, path, chunks) matches Ok(reps) ==> apply_reps(orig, reps) is Some,
{
    lemma_reps_from_fit(orig, path, chunks, 0, 0, seq![]);
    if let Ok(r) = reps_from(orig, path, chunks, 0, 0, seq![]) {
        lemma_sort_props(r, orig.len());
        let s = sort_by_start(r);
        if s.len() > 0 {
            assert(rep_fits(s[s.len() - 1], orig.len()));
        }
        lemma_apply_sorted(orig, s, orig.len());
    }
}

// ---------------------------------------------------------------------------
// Executable replacements
// ---------------------------------------------------------------------------

proof fn lemma_insert_split(s: Seq<Rep>, x: Rep, p: int)
    requires
        0 <= p <= s.len(),
        p == 0 || s[p - 1].0 <= x.0,
        forall|k: int| p <= k < s.len() ==> s[k].0 > x.0,
    ensures
        insert_by_start(s, x) == s.take(p) + seq![x] + s.skip(p),
    decreases s.len(),
{
    if s.len() == 0 {
        assert(s.take(p) + seq![x] + s.skip(p) =~= seq![x]);
    } else if p == s.len() {
        assert(s.take(p) + seq![x] + s.skip(p) =~= s.push(x));
    } else {
        assert(s.last().0 > x.0);
        lemma_insert_split(s.drop_last(), x, p);
        assert(s.drop_last().take(p) + seq![x] + s.drop_last().skip(p) + seq![s.last()] =~= s.take(p) + seq![x]
            + s.skip(p));
    }
}

fn clone_strings(v: &Vec<String>) -> (r: Vec<String>)
    ensures
        strings_view(r@) == strings_view(v@),
{
    let mut out: Vec<String> = Vec::new();
    let mut i: usize = 0;
    while i < v.len()
        invariant
            i <= v.len(),
            strings_view(out@) == strings_view(v@).take(i as int),
        decreases v.len() - i,
    {
        let s = v[i].clone();
        proof {
            assert(strings_view(out@.push(s)) =~= strings_view(out@).push(s@));
            assert(strings_view(v@).take(i + 1) =~= strings_view(v@).take(i as int).push(v@[i as int]@));
        }
        out.push(s);
        i = i + 1;
    }
    assert(strings_view(v@).take(v@.len() as int) =~= strings_view(v@));
    out
}

/// Stable sort by start.
fn sort_reps(reps: &Vec<(usize, usize, Vec<String>)>) -> (r: Vec<(usize, usize, Vec<String>)>)
    ensures
        reps_view(r@) == sort_by_start(reps_view(reps@)),
{
    let ghost rv = reps_view(reps@);
    let mut out: Vec<(usize, usize, Vec<String>)> = Vec::new();
    let mut i: usize = 0;
    assert(rv.take(0) =~= Seq::<Rep>::empty());
    assert(reps_view(out@) =~= Seq::<Rep>::empty());
    while i < reps.len()
        invariant
            i <= reps.len(),
            rv == reps_view(reps@),
            reps_view(out@) == sort_by_start(rv.take(i as int)),
        decreases reps.len() - i,
    {
        let x = (reps[i].0, reps[i].1, clone_strings(&reps[i].2));
        assert(rep_view(x) == rv[i as int]);
        let ghost sv = reps_view(out@);
        let mut p = out.len();
        while p > 0 && out[p - 1].0 > x.0
            invariant
                p <= out.len(),
                sv == reps_view(out@),
                forall|k: int| p <= k < out.len() ==> sv[k].0 > x.0,
            decreases p,
        {
            p = p - 1;
        }
        proof {
            lemma_insert_split(sv, rep_view(x), p as int);
            assert(rv.take(i + 1).drop_last() =~= rv.take(i as int));
        }
        out.insert(p, x);
        proof {
            assert(reps_view(out@) =~= sv.take(p as int) + seq![rep_view(x)] + sv.skip(p as int));
        }
        i = i + 1;
    }
    assert(rv.take(reps@.len() as int) =~= rv);
    out
}

/// `v[..s] ++ seg ++ v[end..]`.
fn splice_strings(v: &Vec<String>, s: usize, end: usize, seg: &Vec<String>) -> (r: Vec<String>)
    requires
        s <= end <= v.len(),
    ensures
        strings_view(r@) == strings_view(v@).take(s as int) + strings_view(seg@) + strings_view(v@).skip(end as int),
{
    let ghost sv = strings_view(v@);
    let mut out: Vec<String> = Vec::new();
    let mut i: usize = 0;
    while i < s
        invariant
            i <= s <= end <= v.len(),
            sv == strings_view(v@),
            strings_view(out@) == sv.take(i as int),
        decreases s - i,
    {
        let x = v[i].clone();
        proof {
            assert(strings_view(out@.push(x)) =~= strings_view(out@).push(x@));
            assert(sv.take(i + 1) =~= sv.take(i as int).push(sv[i as int]));
        }
        out.push(x);
        i = i + 1;
    }
    let mut k: usize = 0;
    while k < seg.len()
        invariant
            k <= seg.len(),
            sv == strings_view(v@),
            strings_view(out@) == sv.take(s as int) + strings_view(seg@).take(k as int),
        decreases seg.len() - k,
    {
        let x = seg[k].clone();
        proof {
            assert(strings_view(out@.push(x)) =~= strings_view(out@).push(x@));
            assert(strings_view(seg@).take(k + 1) =~= strings_view(seg@).take(k as int).push(seg@[k as int]@));
        }
        out.push(x);
        k = k + 1;
    }
    assert(strings_view(seg@).take(seg@.len() as int) =~= strings_view(seg@));
    let mut m = end;
    while m < v.len()
        invariant
            end <= m <= v.len(),
            sv == strings_view(v@),
            strings_view(out@) == sv.take(s as int) + strings_view(seg@) + sv.subrange(end as int, m as int),
        decreases v.len() - m,
    {
        let x = v[m].clone();
        proof {
            assert(strings_view(out@.push(x)) =~= strings_view(out@).push(x@));
            assert(sv.subrange(end as int, m + 1) =~= sv.subrange(end as int, m as int).push(sv[m as int]));
        }
        out.push(x);
        m = m + 1;
    }
    assert(sv.subrange(end as int, v@.len() as int) =~= sv.skip(end as int));
    out
}

/// Applies the replacements from the last to the first, each replacing
/// the lines from its start (up to its length, or to the end) by its new
/// lines.
pub fn apply_replacements(lines: &[String], replacements: &[(usize, usize, Vec<String>)]) -> (r: Vec<String>)
    requires
        apply_reps(strings_view(lines@), reps_view(replacements@)) is Some,
    ensures
        apply_reps(strings_view(lines@), reps_view(replacements@)) == Some(strings_view(r@)),
{
    let ghost rv = reps_view(replacements@);
    let mut result: Vec<String> = Vec::new();
    let mut i: usize = 0;
    while i < lines.len()
        invariant
            i <= lines.len(),
            strings_view(result@) == strings_view(lines@).take(i as int),
        decreases lines.len() - i,
    {
        let x = lines[i].clone();
        proof {
            assert(strings_view(result@.push(x)) =~= strings_view(result@).push(x@));
            assert(strings_view(lines@).take(i + 1) =~= strings_view(lines@).take(i as int).push(lines@[i as int]@));
        }
        result.push(x);
        i = i + 1;
    }
    assert(strings_view(lines@).take(lines@.len() as int) =~= strings_view(lines@));
    let mut k = replacements.len();
    assert(rv.take(k as int) =~= rv);
    while k > 0
        invariant
            k <= replacements.len(),
            rv == reps_view(replacements@),
            apply_reps(strings_view(lines@), rv) == apply_reps(strings_view(result@), rv.take(k as int)),
            apply_reps(strings_view(lines@), rv) is Some,
        decreases k,
    {
        let ghost cur = strings_view(result@);
        proof {
            let t = rv.take(k as int);
            assert(t.last() == rep_view(replacements@[k - 1]));
            assert(t.drop_last() =~= rv.take(k - 1));
        }
        let start = replacements[k - 1].0;
        let old_len = replacements[k - 1].1;
        let end = if start + old_len < result.len() { start + old_len } else { result.len() };
        let next = splice_strings(&result, start, end, &replacements[k - 1].2);
        result = next;
        k = k - 1;
    }
    assert(rv.take(0) =~= Seq::<Rep>::empty());
    result
}

/// The replacements for the chunks of a file: each chunk's context line,
/// if any, is found first; a chunk without old lines inserts at the end
/// (before a final empty line); otherwise its old lines are found at or
/// after the end of the previous chunk, retrying without a final empty
/// line. Sorted by start.
pub fn compute_replacements(original_lines: &[String], file_path: &str, chunks: &[UpdateChunk]) -> (r: Result<Vec<(usize, usize, Vec<String>)>, String>)
    ensures
        match r {
            Ok(v) => compute_replacements_spec(strings_view(original_lines@), file_path@, chunks_view(chunks@)) == Ok::<Seq<Rep>, Seq<char>>(reps_view(v@)),
            Err(e) => compute_replacements_spec(strings_view(original_lines@), file_path@, chunks_view(chunks@)) == Err::<Seq<Rep>, Seq<char>>(e@),
        },
{
    let ls = lines_of_strings(original_lines);
    let ghost orig = strings_view(original_lines@);
    let ghost cv = chunks_view(chunks@);
    let ghost path = file_path@;
    let mut reps: Vec<(usize, usize, Vec<String>)> = Vec::new();
    let mut li: usize = 0;
    let mut k: usize = 0;
    assert(reps_view(reps@) =~= Seq::<Rep>::empty());
    while k < chunks.len()
        invariant
            k <= chunks.len(),
            views(ls@) == orig,
            orig == strings_view(original_lines@),
            cv == chunks_view(chunks@),
            path == file_path@,
            li <= ls.len(),
            reps_from(orig, path, cv, 0, 0, seq![]) == reps_from(orig, path, cv, k as nat, li as nat, reps_view(reps@)),
        decreases chunks.len() - k,
    {
        let c = &chunks[k];
        assert(cv[k as int] == chunk_view(*c));
        let ghost cm = chunk_view(*c);
        let mut start = li;
        match &c.context {
            None => {},
            Some(ctx) => {
                let mut pat: Vec<Vec<char>> = Vec::new();
                pat.push(chars_of(ctx.as_str()));
                assert(views(pat@) =~= seq![ctx@]);
                match seek_in(&ls, &pat, li, false) {
                    None => {
                        let mut msg = chars_of("Failed to find context '");
                        append_str(&mut msg, ctx.as_str());
                        append_str(&mut msg, "' in ");
                        append_str(&mut msg, file_path);
                        return Err(string_of(&msg));
                    },
                    Some(idx) => {
                        proof {
                            lemma_seek_sequence_bounds(orig, seq![ctx@], li as nat, false);
                        }
                        start = idx + 1;
                    },
                }
            },
        }
        assert(chunk_start(orig, path, cm, li as nat) == Ok::<nat, Seq<char>>(start as nat));
        if c.old_lines.len() == 0 {
            let ins = if ls.len() > 0 && ls[ls.len() - 1].len() == 0 { ls.len() - 1 } else { ls.len() };
            proof {
                if ls@.len() > 0 {
                    assert(orig.last() == ls@[ls@.len() - 1]@);
                }
            }
            let rep = (ins, 0usize, clone_strings(&c.new_lines));
            proof {
                assert(reps_view(reps@.push(rep)) =~= reps_view(reps@).push(rep_view(rep)));
            }
            reps.push(rep);
            li = start;
        } else {
            let ov = lines_of_strings(&c.old_lines);
            match seek_in(&ls, &ov, start, c.is_end_of_file) {
                Some(idx) => {
                    proof {
                        lemma_seek_sequence_bounds(orig, cm.old_lines, start as nat, c.is_end_of_file);
                    }
                    let rep = (idx, c.old_lines.len(), clone_strings(&c.new_lines));
                    proof {
                        assert(reps_view(reps@.push(rep)) =~= reps_view(reps@).push(rep_view(rep)));
                    }
                    reps.push(rep);
                    li = idx + c.old_lines.len();
                },
                None => {
                    let last_empty = ov[ov.len() - 1].len() == 0;
                    assert(cm.old_lines.last() == ov@[ov@.len() - 1]@);
                    let mut found: Option<(usize, usize, Vec<String>)> = None;
                    if last_empty {
                        let pat = crate::text::copy_lines(&ov, 0, ov.len() - 1);
                        assert(views(ov@).subrange(0, ov@.len() - 1) =~= cm.old_lines.drop_last());
                        let mut ns = clone_strings(&c.new_lines);
                        if ns.len() > 0 && ns[ns.len() - 1].as_str().is_empty() {
                            let ghost before = strings_view(ns@);
                            assert(before.last() == ns@[ns@.len() - 1]@);
                            ns.pop();
                            assert(strings_view(ns@) =~= before.drop_last());
                        }
                        proof {
                            if !(strings_view(c.new_lines@).len() > 0 && strings_view(c.new_lines@).last().len() == 0) {
                                assert(strings_view(ns@) == cm.new_lines);
                            }
                        }
                        assert(strings_view(ns@) == retry_pattern(cm).1);
                        match seek_in(&ls, &pat, start, c.is_end_of_file) {
                            Some(idx) => {
                                proof {
                                    lemma_seek_sequence_bounds(orig, retry_pattern(cm).0, start as nat, c.is_end_of_file);
                                }
                                found = Some((idx, pat.len(), ns));
                            },
                            None => {},
                        }
                    }
                    match found {
                        Some(rep) => {
                            proof {
                                assert(reps_view(reps@.push(rep)) =~= reps_view(reps@).push(rep_view(rep)));
                            }
                            li = rep.0 + rep.1;
                            reps.push(rep);
                        },
                        None => {
                            let mut msg = chars_of("Failed to find expected lines in ");
                            append_str(&mut msg, file_path);
                            append_str(&mut msg, ":\n");
                            let joined = join_vec(&ov, &chars_of("\n"));
                            append_chars(&mut msg, &joined);
                            return Err(string_of(&msg));
                        },
                    }
                },
            }
        }
        k = k + 1;
    }
    Ok(sort_reps(&reps))
}

/// The lines of a file, with line endings normalized and no final empty
/// line from a trailing newline.
pub open spec fn file_lines(content: Seq<char>) -> Seq<Seq<char>> {
    let sp = split_on(normalize_line_endings_spec(content), '\n');
    if sp.len() > 0 && sp.last().len() == 0 {
        sp.drop_last()
    } else {
        sp
    }
}

/// The lines of an updated file, ending with an empty line so that the
/// joined text ends with a newline.
pub open spec fn with_final_newline(nl: Seq<Seq<char>>) -> Seq<Seq<char>> {
    if nl.len() == 0 || nl.last().len() != 0 {
        nl.push(seq![])
    } else {
        nl
    }
}

/// The new content of an updated file, or the error of its chunks; `None`
/// where applying the replacements would fail.
pub open spec fn update_content_spec(content: Seq<char>, path: Seq<char>, chunks: Seq<ChunkModel>) -> Option<Result<Seq<char>, Seq<char>>> {
    let orig = file_lines(content);
    match compute_replacements_spec(orig, path, chunks) {
        Err(e) => Some(Err(e)),
        Ok(reps) => match apply_reps(orig, reps) {
            None => None,
            Some(nl) => Some(Ok(join(with_final_newline(nl), "\n"@))),
        },
    }
}

/// The content of a file after an update section: line endings normalized,
/// the chunks' replacements applied, and a trailing newline.
pub fn update_file_content(content: &str, path: &str, chunks: &[UpdateChunk]) -> (r: Result<String, String>)
    ensures
        update_content_spec(content@, path@, chunks_view(chunks@)) == Some(
            match r {
                Ok(c) => Ok::<Seq<char>, Seq<char>>(c@),
                Err(e) => Err::<Seq<char>, Seq<char>>(e@),
            },
        ),
{
    let norm = normalize_line_endings(content);
    let nc = chars_of(norm.as_str());
    let mut sp = split_vec(&nc, '\n');
    if sp.len() > 0 && sp[sp.len() - 1].len() == 0 {
        let ghost before = views(sp@);
        assert(before.last() == sp@[sp@.len() - 1]@);
        sp.pop();
        assert(views(sp@) =~= before.drop_last());
    }
    let mut orig: Vec<String> = Vec::new();
    let mut i: usize = 0;
    while i < sp.len()
        invariant
            i <= sp.len(),
            strings_view(orig@) == views(sp@).take(i as int),
        decreases sp.len() - i,
    {
        let s = string_of(&sp[i]);
        proof {
            assert(strings_view(orig@.push(s)) =~= strings_view(orig@).push(s@));
            assert(views(sp@).take(i + 1) =~= views(sp@).take(i as int).push(sp@[i as int]@));
        }
        orig.push(s);
        i = i + 1;
    }
    assert(views(sp@).take(sp@.len() as int) =~= views(sp@));
    assert(strings_view(orig@) == file_lines(content@));
    let reps = match compute_replacements(orig.as_slice(), path, chunks) {
        Err(e) => {
            return Err(e);
        },
        Ok(reps) => reps,
    };
    proof {
        lemma_computed_replacements_apply(file_lines(content@), path@, chunks_view(chunks@));
    }
    let mut new_lines = apply_replacements(orig.as_slice(), reps.as_slice());
    if new_lines.len() == 0 || !new_lines[new_lines.len() - 1].as_str().is_empty() {
        let ghost before = strings_view(new_lines@);
        proof {
            if new_lines@.len() > 0 {
                assert(before.last() == new_lines@[new_lines@.len() - 1]@);
            }
        }
        new_lines.push(String::new());
        assert(strings_view(new_lines@) =~= before.push(seq![]));
    } else {
        assert(strings_view(new_lines@).last() == new_lines@[new_lines@.len() - 1]@);
    }
    let nv = lines_of_strings(new_lines.as_slice());
    let joined = join_vec(&nv, &chars_of("\n"));
    Ok(string_of(&joined))
}

// ---------------------------------------------------------------------------
// The tool
// ---------------------------------------------------------------------------

/// Arguments of the apply-patch tool.
#[derive(Debug)]
pub struct ApplyPatchArgs {
    pub patch_text: String,
}

/// Result reported by the apply-patch tool.
#[derive(Debug)]
pub struct ApplyPatchResult {
    pub summary: Vec<String>,
    pub files_changed: usize,
    pub diagnostics: Option<String>,
}

/// The apply-patch tool.
#[derive(Debug)]
pub struct ApplyPatchTool;

impl ApplyPatchTool {
    /// The tool.
    pub fn new() -> (r: Self) {
        ApplyPatchTool
    }

    /// The tool's registered name.
    pub fn name(&self) -> (r: &'static str)
        ensures
            r@ == "apply_patch"@,
    {
        "apply_patch"
    }
}

/// Error for a patch with no sections.
pub open spec fn nothing_to_apply_msg() -> Seq<char> {
    "No files were modified."@
}

/// The hunks to apply: the parsed patch, which must have at least one.
pub fn patch_hunks(patch_text: &str) -> (r: Result<Vec<Hunk>, String>)
    ensures
        match parse_patch_spec(patch_text@) {
            Err(e) => r matches Err(x) && x@ == e,
            Ok(hs) => if hs.len() == 0 {
                r matches Err(x) && x@ == nothing_to_apply_msg()
            } else {
                r matches Ok(v) && hunks_view(v@) == hs
            },
        },
{
    let hunks = parse_patch(patch_text)?;
    if hunks.len() == 0 {
        return Err("No files were modified.".to_owned());
    }
    Ok(hunks)
}

/// Summary line of an applied hunk: `A`, `D` or `M` and the path written
/// (the move target for a moved file).
pub open spec fn summary_line_spec(h: HunkModel) -> Seq<char> {
    match h {
        HunkModel::Add { path, .. } => "A "@ + path,
        HunkModel::Delete { path } => "D "@ + path,
        HunkModel::Update { path, move_path, .. } => match move_path {
            Some(mp) => "M "@ + mp,
            None => "M "@ + path,
        },
    }
}

/// The summary line reported for an applied hunk.
pub fn summary_line(h: &Hunk) -> (r: String)
    ensures
        r@ == summary_line_spec(hunk_view(*h)),
{
    let (tag, path) = match h {
        Hunk::Add { path, .. } => ("A ", path.as_str()),
        Hunk::Delete { path } => ("D ", path.as_str()),
        Hunk::Update { path, move_path, .. } => match move_path {
            Some(mp) => ("M ", mp.as_str()),
            None => ("M ", path.as_str()),
        },
    };
    let mut out = chars_of(tag);
    append_str(&mut out, path);
    string_of(&out)
}

} // verus!
