//! Edit matching strategies.
//!
//! When `apply_edit()` tries to find `old_string` in `content`, it uses a
//! chain of increasingly fuzzy strategies. The first match wins.
//!
//! Each strategy has a specification (`*_spec`) giving its outcome:
//! `None` when it cannot match, `Some((new_content, replacements))`
//! otherwise. Strategies that slice line blocks can fail on some inputs the
//! way a failed slice does; their specification is wrapped in one more
//! `Option`, which is `None` exactly on those inputs.
use vstd::prelude::*;
use crate::fuzzy_match::{block_anchor_exec, block_anchor_spec, context_aware_exec, context_aware_spec};
use crate::indent_match::{indentation_flexible_exec, indentation_flexible_spec};
use crate::text::{chars_eq, chars_of, copy_lines, count_matches, count_matches_exec, ends_with, ends_with_exec, join, join_vec, lemma_views_push, lines_of, lines_vec, replace_all_exec, replace_first_exec, replaced_all, replaced_first, slice_vec, string_of, trim, trim_vec, views, words, words_vec};

verus! {

/// Outcome of a strategy: the new content and the number of replacements.
pub type Outcome = Option<(Seq<char>, nat)>;

/// View of an executable outcome.
pub open spec fn outcome_view(r: Option<(Vec<char>, usize)>) -> Outcome {
    match r {
        Some((c, n)) => Some((c@, n as nat)),
        None => None,
    }
}

/// View of an executable outcome carried in `String`s.
pub open spec fn outcome_view_s(r: Option<(String, usize)>) -> Outcome {
    match r {
        Some((c, n)) => Some((c@, n as nat)),
        None => None,
    }
}

// ---------------------------------------------------------------------------
// String-level strategies
// ---------------------------------------------------------------------------

/// Exact matching: unique match, or all matches with `replace_all`.
pub open spec fn simple_spec(content: Seq<char>, old: Seq<char>, new: Seq<char>, replace_all: bool) -> Outcome {
    let count = count_matches(content, old);
    if count == 0 {
        None
    } else if count > 1 && !replace_all {
        None
    } else if replace_all {
        Some((replaced_all(content, old, new), count))
    } else {
        Some((replaced_first(content, old, new), 1))
    }
}

/// Escape sequences `\n`, `\t`, `\"`, `\'`, `\\` turned into the characters
/// they stand for, in that order.
pub open spec fn normalize_escapes_spec(s: Seq<char>) -> Seq<char> {
    replaced_all(
        replaced_all(
            replaced_all(replaced_all(replaced_all(s, "\\n"@, "\n"@), "\\t"@, "\t"@), "\\\""@, "\""@),
            "\\'"@,
            "'"@,
        ),
        "\\\\"@,
        "\\"@,
    )
}

/// Exact matching of the escape-normalized old string; the replacement is
/// escape-normalized too. Does not apply when normalization changes nothing.
pub open spec fn escape_spec(content: Seq<char>, old: Seq<char>, new: Seq<char>, replace_all: bool) -> Outcome {
    let norm_old = normalize_escapes_spec(old);
    if norm_old == old {
        None
    } else {
        let count = count_matches(content, norm_old);
        let norm_new = normalize_escapes_spec(new);
        if count == 0 {
            None
        } else if count > 1 && !replace_all {
            None
        } else if replace_all {
            Some((replaced_all(content, norm_old, norm_new), count))
        } else {
            Some((replaced_first(content, norm_old, norm_new), 1))
        }
    }
}

/// The lines of `old` without its first and last line, joined by `'\n'`.
pub open spec fn inner_block(old: Seq<char>) -> Seq<char> {
    let ls = lines_of(old);
    join(ls.subrange(1, ls.len() - 1), "\n"@)
}

/// Exact matching of the old string without its first and last line (it
/// needs at least three lines).
pub open spec fn trimmed_boundary_spec(content: Seq<char>, old: Seq<char>, new: Seq<char>, replace_all: bool) -> Outcome {
    if lines_of(old).len() < 3 {
        None
    } else {
        let inner = inner_block(old);
        let count = count_matches(content, inner);
        if count == 0 {
            None
        } else if count > 1 && !replace_all {
            None
        } else if replace_all {
            Some((replaced_all(content, inner, new), count))
        } else {
            Some((replaced_first(content, inner, new), 1))
        }
    }
}

/// With `replace_all`, replaces every match when there are several; without
/// it, replaces the first of several matches.
pub open spec fn multi_occurrence_spec(content: Seq<char>, old: Seq<char>, new: Seq<char>, replace_all: bool) -> Outcome {
    let count = count_matches(content, old);
    if replace_all {
        if count > 1 {
            Some((replaced_all(content, old, new), count))
        } else {
            None
        }
    } else if count <= 1 {
        None
    } else {
        Some((replaced_first(content, old, new), 1))
    }
}


// ---------------------------------------------------------------------------
// Line-block infrastructure
// ---------------------------------------------------------------------------

/// Positions `j < k`, in increasing order, at which `pred` holds.
pub open spec fn positions(k: int, pred: spec_fn(int) -> bool) -> Seq<usize>
    decreases k,
{
    if k <= 0 {
        seq![]
    } else if pred(k - 1) {
        positions(k - 1, pred).push((k - 1) as usize)
    } else {
        positions(k - 1, pred)
    }
}

/// `lines` with `old_len` lines at each start position replaced by `new_lines`,
/// processing the positions from the last to the first. `None` when a block
/// reaches past the end of the lines as they are at that point.
pub open spec fn splice_desc(
    lines: Seq<Seq<char>>,
    starts: Seq<usize>,
    old_len: nat,
    new_lines: Seq<Seq<char>>,
) -> Option<Seq<Seq<char>>>
    decreases starts.len(),
{
    if starts.len() == 0 {
        Some(lines)
    } else {
        let st = starts.last() as int;
        if st + old_len > lines.len() {
            None
        } else {
            splice_desc(
                lines.take(st) + new_lines + lines.skip(st + old_len),
                starts.drop_last(),
                old_len,
                new_lines,
            )
        }
    }
}

/// Lines joined by `'\n'`, with a final `'\n'` added when the original
/// content ended with one and the joined text does not.
pub open spec fn finish_lines(content: Seq<char>, lines: Seq<Seq<char>>) -> Seq<char> {
    let j = join(lines, "\n"@);
    if ends_with(content, "\n"@) && !ends_with(j, "\n"@) {
        j.push('\n')
    } else {
        j
    }
}

/// The positions a strategy applies: all of them, or only the first.
pub open spec fn chosen(ms: Seq<usize>, replace_all: bool) -> Seq<usize> {
    if replace_all {
        ms
    } else {
        ms.take(1)
    }
}

/// Outcome of splicing `new_lines` at the chosen starts.
pub open spec fn splice_outcome(
    content: Seq<char>,
    lines: Seq<Seq<char>>,
    starts: Seq<usize>,
    old_len: nat,
    new_lines: Seq<Seq<char>>,
) -> Option<Outcome> {
    match splice_desc(lines, starts, old_len, new_lines) {
        None => None,
        Some(rl) => Some(Some((finish_lines(content, rl), starts.len()))),
    }
}

/// `lines[..start] ++ new_lines ++ lines[start + old_len..]`, or `None` when
/// `start + old_len` is past the end.
fn splice_lines(lines: &Vec<Vec<char>>, start: usize, old_len: usize, new_lines: &Vec<Vec<char>>) -> (r: Option<Vec<Vec<char>>>)
    ensures
        match r {
            None => start + old_len > lines.len(),
            Some(out) => start + old_len <= lines.len() && views(out@) == views(lines@).take(
                start as int,
            ) + views(new_lines@) + views(lines@).skip(start + old_len),
        },
{
    if start > lines.len() || old_len > lines.len() - start {
        return None;
    }
    let mut out = copy_lines(lines, 0, start);
    let tail = copy_lines(lines, start + old_len, lines.len());
    append_lines(&mut out, new_lines);
    append_lines(&mut out, &tail);
    proof {
        assert(views(lines@).subrange(0, start as int) =~= views(lines@).take(start as int));
        assert(views(lines@).subrange(start + old_len, lines@.len() as int) =~= views(lines@).skip(
            start + old_len,
        ));
    }
    Some(out)
}

/// Appends copies of the lines of `b` to `a`.
pub(crate) fn append_lines(a: &mut Vec<Vec<char>>, b: &Vec<Vec<char>>)
    ensures
        views(final(a)@) == views(old(a)@) + views(b@),
{
    let ghost a0 = a@;
    let mut i: usize = 0;
    while i < b.len()
        invariant
            i <= b.len(),
            views(a@) == views(a0) + views(b@).take(i as int),
        decreases b.len() - i,
    {
        let item = slice_vec(&b[i], 0, b[i].len());
        proof {
            assert(b@[i as int]@.subrange(0, b@[i as int]@.len() as int) =~= b@[i as int]@);
            lemma_views_push(a@, item);
            assert(views(b@).take(i + 1) =~= views(b@).take(i as int).push(b@[i as int]@));
        }
        a.push(item);
        i = i + 1;
    }
    assert(views(b@).take(b@.len() as int) =~= views(b@));
}

/// `finish_lines`: joined lines with the content's final newline kept.
pub(crate) fn finish_lines_exec(content: &[char], lines: &Vec<Vec<char>>) -> (r: Vec<char>)
    ensures
        r@ == finish_lines(content@, views(lines@)),
{
    let nl = chars_of("\n");
    let mut j = join_vec(lines, &nl);
    if ends_with_exec(content, &nl) && !ends_with_exec(&j, &nl) {
        j.push('\n');
    }
    j
}

/// Applies `splice_desc`.
fn splice_desc_exec(
    lines: Vec<Vec<char>>,
    starts: &Vec<usize>,
    old_len: usize,
    new_lines: &Vec<Vec<char>>,
) -> (r: Option<Vec<Vec<char>>>)
    ensures
        match r {
            None => splice_desc(views(lines@), starts@, old_len as nat, views(new_lines@)) is None,
            Some(out) => splice_desc(views(lines@), starts@, old_len as nat, views(new_lines@))
                == Some(views(out@)),
        },
{
    let mut cur = lines;
    let mut k = starts.len();
    assert(starts@.take(k as int) =~= starts@);
    while k > 0
        invariant
            k <= starts.len(),
            splice_desc(views(lines@), starts@, old_len as nat, views(new_lines@)) == splice_desc(
                views(cur@),
                starts@.take(k as int),
                old_len as nat,
                views(new_lines@),
            ),
        decreases k,
    {
        let st = starts[k - 1];
        proof {
            let sk = starts@.take(k as int);
            assert(sk.last() == st);
            assert(sk.drop_last() =~= starts@.take(k - 1));
        }
        match splice_lines(&cur, st, old_len, new_lines) {
            None => {
                return None;
            },
            Some(next) => {
                cur = next;
            },
        }
        k = k - 1;
    }
    assert(starts@.take(0) =~= Seq::<usize>::empty());
    Some(cur)
}


// ---------------------------------------------------------------------------
// Line-trimmed and whitespace-normalized matching
// ---------------------------------------------------------------------------

/// Every line trimmed.
pub open spec fn trim_all(ls: Seq<Seq<char>>) -> Seq<Seq<char>> {
    ls.map_values(|l: Seq<char>| trim(l))
}

/// The block of `needle.len()` lines of `hay` at `i` equals `needle`.
pub open spec fn block_eq_pred(hay: Seq<Seq<char>>, needle: Seq<Seq<char>>) -> spec_fn(int) -> bool {
    |i: int| hay.subrange(i, i + needle.len()) == needle
}

/// Line-by-line matching with every line trimmed on both sides.
pub open spec fn line_trimmed_spec(content: Seq<char>, old: Seq<char>, new: Seq<char>, replace_all: bool) -> Option<Outcome> {
    let ol = trim_all(lines_of(old));
    let cl = lines_of(content);
    if ol.len() == 0 {
        Some(None)
    } else if ol.len() > cl.len() {
        None
    } else {
        let ms = positions(cl.len() - ol.len() + 1, block_eq_pred(trim_all(cl), ol));
        if ms.len() == 0 || (ms.len() > 1 && !replace_all) {
            Some(None)
        } else {
            splice_outcome(content, cl, chosen(ms, replace_all), ol.len(), lines_of(new))
        }
    }
}

/// All whitespace runs collapsed to single spaces, leading and trailing
/// whitespace dropped.
pub open spec fn normalize_whitespace_spec(s: Seq<char>) -> Seq<char> {
    join(words(s), " "@)
}

/// The block of `n` lines of `cl` at `i`, joined by `'\n'`, normalizes to `target`.
pub open spec fn ws_block_pred(cl: Seq<Seq<char>>, n: nat, target: Seq<char>) -> spec_fn(int) -> bool {
    |i: int| normalize_whitespace_spec(join(cl.subrange(i, i + n), "\n"@)) == target
}

/// Block matching with whitespace collapsed.
pub open spec fn whitespace_normalized_spec(content: Seq<char>, old: Seq<char>, new: Seq<char>, replace_all: bool) -> Option<Outcome> {
    let ol = lines_of(old);
    let cl = lines_of(content);
    if ol.len() == 0 {
        Some(None)
    } else if ol.len() > cl.len() {
        None
    } else {
        let ms = positions(cl.len() - ol.len() + 1, ws_block_pred(cl, ol.len(), normalize_whitespace_spec(old)));
        if ms.len() == 0 || (ms.len() > 1 && !replace_all) {
            Some(None)
        } else {
            splice_outcome(content, cl, chosen(ms, replace_all), ol.len(), lines_of(new))
        }
    }
}

/// Whitespace runs collapsed to single spaces.
pub fn normalize_whitespace(s: &str) -> (r: String)
    ensures
        r@ == normalize_whitespace_spec(s@),
{
    let cs = chars_of(s);
    let n = normalize_whitespace_vec(&cs);
    string_of(&n)
}

fn normalize_whitespace_vec(s: &[char]) -> (r: Vec<char>)
    ensures
        r@ == normalize_whitespace_spec(s@),
{
    let ws = words_vec(s);
    join_vec(&ws, &chars_of(" "))
}

fn trim_lines(ls: &Vec<Vec<char>>) -> (out: Vec<Vec<char>>)
    ensures
        views(out@) == trim_all(views(ls@)),
        out@.len() == ls@.len(),
{
    let mut out: Vec<Vec<char>> = Vec::new();
    let mut i: usize = 0;
    while i < ls.len()
        invariant
            i <= ls.len(),
            views(out@) == trim_all(views(ls@)).take(i as int),
        decreases ls.len() - i,
    {
        let t = trim_vec(&ls[i]);
        proof {
            lemma_views_push(out@, t);
            assert(trim_all(views(ls@)).take(i + 1) =~= trim_all(views(ls@)).take(i as int).push(
                t@,
            ));
        }
        out.push(t);
        i = i + 1;
    }
    assert(trim_all(views(ls@)).take(ls@.len() as int) =~= trim_all(views(ls@)));
    out
}

fn block_eq(hay: &Vec<Vec<char>>, needle: &Vec<Vec<char>>, i: usize) -> (r: bool)
    requires
        i + needle.len() <= hay.len(),
    ensures
        r == (block_eq_pred(views(hay@), views(needle@)))(i as int),
{
    let mut j: usize = 0;
    while j < needle.len()
        invariant
            j <= needle.len(),
            i + needle.len() <= hay.len(),
            forall|k: int| 0 <= k < j ==> views(hay@)[i + k] == views(needle@)[k],
        decreases needle.len() - j,
    {
        if !chars_eq(&hay[i + j], &needle[j]) {
            assert(views(hay@).subrange(i as int, i + needle@.len())[j as int] != views(needle@)[j as int]);
            return false;
        }
        j = j + 1;
    }
    assert(views(hay@).subrange(i as int, i + needle@.len()) =~= views(needle@));
    true
}

/// The applied positions: all, or the first.
pub(crate) fn chosen_exec(ms: &Vec<usize>, replace_all: bool) -> (r: Vec<usize>)
    requires
        ms.len() >= 1,
    ensures
        r@ == chosen(ms@, replace_all),
{
    if replace_all {
        let mut r: Vec<usize> = Vec::new();
        let mut i: usize = 0;
        while i < ms.len()
            invariant
                i <= ms.len(),
                r@ == ms@.take(i as int),
            decreases ms.len() - i,
        {
            r.push(ms[i]);
            assert(ms@.take(i + 1) =~= ms@.take(i as int).push(ms@[i as int]));
            i = i + 1;
        }
        assert(ms@.take(ms@.len() as int) =~= ms@);
        r
    } else {
        let mut r: Vec<usize> = Vec::new();
        r.push(ms[0]);
        assert(r@ =~= ms@.take(1));
        r
    }
}

/// Runs `splice_outcome`.
pub(crate) fn splice_outcome_exec(
    content: &[char],
    cl: Vec<Vec<char>>,
    starts: &Vec<usize>,
    old_len: usize,
    new_lines: &Vec<Vec<char>>,
) -> (r: Option<Option<(Vec<char>, usize)>>)
    ensures
        match r {
            None => splice_outcome(content@, views(cl@), starts@, old_len as nat, views(new_lines@)) is None,
            Some(o) => splice_outcome(content@, views(cl@), starts@, old_len as nat, views(new_lines@))
                == Some(outcome_view(o)),
        },
{
    let ghost clv = views(cl@);
    match splice_desc_exec(cl, starts, old_len, new_lines) {
        None => None,
        Some(rl) => {
            let out = finish_lines_exec(content, &rl);
            Some(Some((out, starts.len())))
        },
    }
}

fn line_trimmed_exec(content: &[char], old: &[char], new: &[char], replace_all: bool) -> (r: Option<Option<(Vec<char>, usize)>>)
    ensures
        match r {
            None => line_trimmed_spec(content@, old@, new@, replace_all) is None,
            Some(o) => line_trimmed_spec(content@, old@, new@, replace_all) == Some(outcome_view(o)),
        },
{
    let ol_raw = lines_vec(old);
    let ol = trim_lines(&ol_raw);
    let cl = lines_vec(content);
    let tl = trim_lines(&cl);
    if ol.len() == 0 {
        return Some(None);
    }
    if ol.len() > cl.len() {
        return None;
    }
    let ghost pred = block_eq_pred(trim_all(views(cl@)), trim_all(lines_of(old@)));
    let mut ms: Vec<usize> = Vec::new();
    let mut i: usize = 0;
    let bound = cl.len() - ol.len();
    while i <= bound
        invariant
            bound == cl.len() - ol.len(),
            i <= bound + 1,
            views(tl@) == trim_all(views(cl@)),
            views(ol@) == trim_all(lines_of(old@)),
            tl@.len() == cl@.len(),
            ol@.len() >= 1,
            pred == block_eq_pred(trim_all(views(cl@)), trim_all(lines_of(old@))),
            ms@ == positions(i as int, pred),
        decreases bound + 1 - i,
    {
        if block_eq(&tl, &ol, i) {
            ms.push(i);
        }
        assert(positions(i + 1, pred) == if pred(i as int) {
            positions(i as int, pred).push(i)
        } else {
            positions(i as int, pred)
        });
        i = i + 1;
    }
    if ms.len() == 0 || (ms.len() > 1 && !replace_all) {
        return Some(None);
    }
    let starts = chosen_exec(&ms, replace_all);
    let nl = lines_vec(new);
    splice_outcome_exec(content, cl, &starts, ol.len(), &nl)
}

fn ws_block_matches(cl: &Vec<Vec<char>>, i: usize, n: usize, target: &[char]) -> (r: bool)
    requires
        i + n <= cl.len(),
    ensures
        r == (ws_block_pred(views(cl@), n as nat, target@))(i as int),
{
    let block = copy_lines(cl, i, i + n);
    let joined = join_vec(&block, &chars_of("\n"));
    let norm = normalize_whitespace_vec(&joined);
    chars_eq(&norm, target)
}

fn whitespace_normalized_exec(content: &[char], old: &[char], new: &[char], replace_all: bool) -> (r: Option<Option<(Vec<char>, usize)>>)
    ensures
        match r {
            None => whitespace_normalized_spec(content@, old@, new@, replace_all) is None,
            Some(o) => whitespace_normalized_spec(content@, old@, new@, replace_all) == Some(outcome_view(o)),
        },
{
    let norm_old = normalize_whitespace_vec(old);
    let cl = lines_vec(content);
    let ol = lines_vec(old);
    if ol.len() == 0 {
        return Some(None);
    }
    if ol.len() > cl.len() {
        return None;
    }
    let ghost pred = ws_block_pred(views(cl@), ol@.len(), normalize_whitespace_spec(old@));
    let mut ms: Vec<usize> = Vec::new();
    let mut i: usize = 0;
    let bound = cl.len() - ol.len();
    while i <= bound
        invariant
            bound == cl.len() - ol.len(),
            i <= bound + 1,
            norm_old@ == normalize_whitespace_spec(old@),
            ol@.len() >= 1,
            pred == ws_block_pred(views(cl@), ol@.len(), normalize_whitespace_spec(old@)),
            ms@ == positions(i as int, pred),
        decreases bound + 1 - i,
    {
        if ws_block_matches(&cl, i, ol.len(), &norm_old) {
            ms.push(i);
        }
        assert(positions(i + 1, pred) == if pred(i as int) {
            positions(i as int, pred).push(i)
        } else {
            positions(i as int, pred)
        });
        i = i + 1;
    }
    if ms.len() == 0 || (ms.len() > 1 && !replace_all) {
        return Some(None);
    }
    let starts = chosen_exec(&ms, replace_all);
    let nl = lines_vec(new);
    splice_outcome_exec(content, cl, &starts, ol.len(), &nl)
}

// ---------------------------------------------------------------------------
// Executable string-level strategies
// ---------------------------------------------------------------------------

fn simple_exec(content: &[char], old: &[char], new: &[char], replace_all: bool) -> (r: Option<(Vec<char>, usize)>)
    requires
        content.len() < usize::MAX,
    ensures
        outcome_view(r) == simple_spec(content@, old@, new@, replace_all),
{
    let count = count_matches_exec(content, old);
    if count == 0 {
        return None;
    }
    if count > 1 && !replace_all {
        return None;
    }
    if replace_all {
        Some((replace_all_exec(content, old, new), count))
    } else {
        Some((replace_first_exec(content, old, new), 1))
    }
}

/// Escape sequences turned into the characters they stand for.
pub fn normalize_escapes(s: &str) -> (r: String)
    ensures
        r@ == normalize_escapes_spec(s@),
{
    let cs = chars_of(s);
    let n = normalize_escapes_vec(&cs);
    string_of(&n)
}

fn normalize_escapes_vec(s: &[char]) -> (r: Vec<char>)
    ensures
        r@ == normalize_escapes_spec(s@),
{
    let a = replace_all_exec(s, &chars_of("\\n"), &chars_of("\n"));
    let b = replace_all_exec(&a, &chars_of("\\t"), &chars_of("\t"));
    let c = replace_all_exec(&b, &chars_of("\\\""), &chars_of("\""));
    let d = replace_all_exec(&c, &chars_of("\\'"), &chars_of("'"));
    replace_all_exec(&d, &chars_of("\\\\"), &chars_of("\\"))
}

fn escape_exec(content: &[char], old: &[char], new: &[char], replace_all: bool) -> (r: Option<(Vec<char>, usize)>)
    requires
        content.len() < usize::MAX,
    ensures
        outcome_view(r) == escape_spec(content@, old@, new@, replace_all),
{
    let norm_old = normalize_escapes_vec(old);
    if chars_eq(&norm_old, old) {
        return None;
    }
    let count = count_matches_exec(content, &norm_old);
    if count == 0 {
        return None;
    }
    if count > 1 && !replace_all {
        return None;
    }
    let norm_new = normalize_escapes_vec(new);
    if replace_all {
        Some((replace_all_exec(content, &norm_old, &norm_new), count))
    } else {
        Some((replace_first_exec(content, &norm_old, &norm_new), 1))
    }
}

fn trimmed_boundary_exec(content: &[char], old: &[char], new: &[char], replace_all: bool) -> (r: Option<(Vec<char>, usize)>)
    requires
        content.len() < usize::MAX,
    ensures
        outcome_view(r) == trimmed_boundary_spec(content@, old@, new@, replace_all),
{
    let old_lines = lines_vec(old);
    if old_lines.len() < 3 {
        return None;
    }
    let inner_lines = copy_lines(&old_lines, 1, old_lines.len() - 1);
    let inner = join_vec(&inner_lines, &chars_of("\n"));
    let count = count_matches_exec(content, &inner);
    if count == 0 {
        return None;
    }
    if count > 1 && !replace_all {
        return None;
    }
    if replace_all {
        Some((replace_all_exec(content, &inner, new), count))
    } else {
        Some((replace_first_exec(content, &inner, new), 1))
    }
}

fn multi_occurrence_exec(content: &[char], old: &[char], new: &[char], replace_all: bool) -> (r: Option<(Vec<char>, usize)>)
    requires
        content.len() < usize::MAX,
    ensures
        outcome_view(r) == multi_occurrence_spec(content@, old@, new@, replace_all),
{
    let count = count_matches_exec(content, old);
    if replace_all {
        if count > 1 {
            return Some((replace_all_exec(content, old, new), count));
        }
        return None;
    }
    if count <= 1 {
        return None;
    }
    Some((replace_first_exec(content, old, new), 1))
}


// ---------------------------------------------------------------------------
// The strategies
// ---------------------------------------------------------------------------

/// The matching strategies, in the order the edit chain tries them.
#[derive(Clone, Copy, PartialEq, Eq, Structural, Debug)]
pub enum Strategy {
    Simple,
    LineTrimmed,
    BlockAnchor,
    WhitespaceNormalized,
    IndentationFlexible,
    EscapeNormalized,
    TrimmedBoundary,
    ContextAware,
    MultiOccurrence,
}

/// Outcome of a strategy; `None` where it would fail on a slice.
pub open spec fn strategy_outcome(s: Strategy, content: Seq<char>, old: Seq<char>, new: Seq<char>, replace_all: bool) -> Option<Outcome> {
    match s {
        Strategy::Simple => Some(simple_spec(content, old, new, replace_all)),
        Strategy::LineTrimmed => line_trimmed_spec(content, old, new, replace_all),
        Strategy::BlockAnchor => block_anchor_spec(content, old, new, replace_all),
        Strategy::WhitespaceNormalized => whitespace_normalized_spec(content, old, new, replace_all),
        Strategy::IndentationFlexible => indentation_flexible_spec(content, old, new, replace_all),
        Strategy::EscapeNormalized => Some(escape_spec(content, old, new, replace_all)),
        Strategy::TrimmedBoundary => Some(trimmed_boundary_spec(content, old, new, replace_all)),
        Strategy::ContextAware => Some(context_aware_spec(content, old, new)),
        Strategy::MultiOccurrence => Some(multi_occurrence_spec(content, old, new, replace_all)),
    }
}

/// Name of a strategy.
pub open spec fn strategy_name(s: Strategy) -> Seq<char> {
    match s {
        Strategy::Simple => "simple"@,
        Strategy::LineTrimmed => "line_trimmed"@,
        Strategy::BlockAnchor => "block_anchor"@,
        Strategy::WhitespaceNormalized => "whitespace_normalized"@,
        Strategy::IndentationFlexible => "indentation_flexible"@,
        Strategy::EscapeNormalized => "escape_normalized"@,
        Strategy::TrimmedBoundary => "trimmed_boundary"@,
        Strategy::ContextAware => "context_aware"@,
        Strategy::MultiOccurrence => "multi_occurrence"@,
    }
}

/// The `k`-th strategy of the chain (`k < 9`).
pub open spec fn strategy_at(k: nat) -> Strategy {
    if k == 0 {
        Strategy::Simple
    } else if k == 1 {
        Strategy::LineTrimmed
    } else if k == 2 {
        Strategy::BlockAnchor
    } else if k == 3 {
        Strategy::WhitespaceNormalized
    } else if k == 4 {
        Strategy::IndentationFlexible
    } else if k == 5 {
        Strategy::EscapeNormalized
    } else if k == 6 {
        Strategy::TrimmedBoundary
    } else if k == 7 {
        Strategy::ContextAware
    } else {
        Strategy::MultiOccurrence
    }
}

/// Number of strategies in the chain.
pub open spec fn strategy_count() -> nat {
    9
}

impl Strategy {
    /// The strategy's name.
    pub fn name(&self) -> (r: &'static str)
        ensures
            r@ == strategy_name(*self),
    {
        match self {
            Strategy::Simple => "simple",
            Strategy::LineTrimmed => "line_trimmed",
            Strategy::BlockAnchor => "block_anchor",
            Strategy::WhitespaceNormalized => "whitespace_normalized",
            Strategy::IndentationFlexible => "indentation_flexible",
            Strategy::EscapeNormalized => "escape_normalized",
            Strategy::TrimmedBoundary => "trimmed_boundary",
            Strategy::ContextAware => "context_aware",
            Strategy::MultiOccurrence => "multi_occurrence",
        }
    }

    /// Runs the strategy on character vectors; `None` where it would fail on
    /// a slice.
    pub fn run(&self, content: &[char], old: &[char], new: &[char], replace_all: bool) -> (r: Option<Option<(Vec<char>, usize)>>)
        requires
            content@.len() < usize::MAX,
        ensures
            match r {
                None => strategy_outcome(*self, content@, old@, new@, replace_all) is None,
                Some(o) => strategy_outcome(*self, content@, old@, new@, replace_all) == Some(outcome_view(o)),
            },
    {
        match self {
            Strategy::Simple => Some(simple_exec(content, old, new, replace_all)),
            Strategy::LineTrimmed => line_trimmed_exec(content, old, new, replace_all),
            Strategy::BlockAnchor => block_anchor_exec(content, old, new, replace_all),
            Strategy::WhitespaceNormalized => whitespace_normalized_exec(content, old, new, replace_all),
            Strategy::IndentationFlexible => indentation_flexible_exec(content, old, new, replace_all),
            Strategy::EscapeNormalized => Some(escape_exec(content, old, new, replace_all)),
            Strategy::TrimmedBoundary => Some(trimmed_boundary_exec(content, old, new, replace_all)),
            Strategy::ContextAware => Some(context_aware_exec(content, old, new)),
            Strategy::MultiOccurrence => Some(multi_occurrence_exec(content, old, new, replace_all)),
        }
    }

    /// Tries to replace `old_string` by `new_string` in `content`: the new
    /// content and the number of replacements, or `None` when the strategy
    /// does not match.
    pub fn try_replace(&self, content: &str, old_string: &str, new_string: &str, replace_all: bool) -> (r: Option<(String, usize)>)
        requires
            content@.len() < usize::MAX,
            strategy_outcome(*self, content@, old_string@, new_string@, replace_all) is Some,
        ensures
            Some(outcome_view_s(r)) == strategy_outcome(*self, content@, old_string@, new_string@, replace_all),
    {
        let c = chars_of(content);
        let o = chars_of(old_string);
        let n = chars_of(new_string);
        match self.run(&c, &o, &n, replace_all) {
            None => None,
            Some(None) => None,
            Some(Some((v, k))) => Some((string_of(&v), k)),
        }
    }
}

/// The strategies in chain order.
pub fn all_strategies() -> (r: Vec<Strategy>)
    ensures
        r.len() == strategy_count(),
        forall|k: int| 0 <= k < r.len() ==> r[k] == strategy_at(k as nat),
{
    let r = vec![
        Strategy::Simple,
        Strategy::LineTrimmed,
        Strategy::BlockAnchor,
        Strategy::WhitespaceNormalized,
        Strategy::IndentationFlexible,
        Strategy::EscapeNormalized,
        Strategy::TrimmedBoundary,
        Strategy::ContextAware,
        Strategy::MultiOccurrence,
    ];
    assert forall|k: int| 0 <= k < r.len() implies r[k] == strategy_at(k as nat) by {
        if k == 0 {} else if k == 1 {} else if k == 2 {} else if k == 3 {} else if k == 4 {}
        else if k == 5 {} else if k == 6 {} else if k == 7 {} else {}
    }
    r
}

/// Exact string match.
#[derive(Debug)]
pub struct SimpleReplacer;

impl SimpleReplacer {
    /// The strategy's name.
    pub fn name(&self) -> (r: &'static str)
        ensures
            r@ == strategy_name(Strategy::Simple),
    {
        Strategy::Simple.name()
    }

    /// See `Strategy::try_replace`.
    pub fn try_replace(&self, content: &str, old_string: &str, new_string: &str, replace_all: bool) -> (r: Option<(String, usize)>)
        requires
            content@.len() < usize::MAX,
            strategy_outcome(Strategy::Simple, content@, old_string@, new_string@, replace_all) is Some,
        ensures
            Some(outcome_view_s(r)) == strategy_outcome(Strategy::Simple, content@, old_string@, new_string@, replace_all),
    {
        Strategy::Simple.try_replace(content, old_string, new_string, replace_all)
    }
}

/// Line-by-line match with every line trimmed.
#[derive(Debug)]
pub struct LineTrimmedReplacer;

impl LineTrimmedReplacer {
    /// The strategy's name.
    pub fn name(&self) -> (r: &'static str)
        ensures
            r@ == strategy_name(Strategy::LineTrimmed),
    {
        Strategy::LineTrimmed.name()
    }

    /// See `Strategy::try_replace`.
    pub fn try_replace(&self, content: &str, old_string: &str, new_string: &str, replace_all: bool) -> (r: Option<(String, usize)>)
        requires
            content@.len() < usize::MAX,
            strategy_outcome(Strategy::LineTrimmed, content@, old_string@, new_string@, replace_all) is Some,
        ensures
            Some(outcome_view_s(r)) == strategy_outcome(Strategy::LineTrimmed, content@, old_string@, new_string@, replace_all),
    {
        Strategy::LineTrimmed.try_replace(content, old_string, new_string, replace_all)
    }
}

/// Levenshtein-based fuzzy block match.
#[derive(Debug)]
pub struct BlockAnchorReplacer;

impl BlockAnchorReplacer {
    /// The strategy's name.
    pub fn name(&self) -> (r: &'static str)
        ensures
            r@ == strategy_name(Strategy::BlockAnchor),
    {
        Strategy::BlockAnchor.name()
    }

    /// See `Strategy::try_replace`.
    pub fn try_replace(&self, content: &str, old_string: &str, new_string: &str, replace_all: bool) -> (r: Option<(String, usize)>)
        requires
            content@.len() < usize::MAX,
            strategy_outcome(Strategy::BlockAnchor, content@, old_string@, new_string@, replace_all) is Some,
        ensures
            Some(outcome_view_s(r)) == strategy_outcome(Strategy::BlockAnchor, content@, old_string@, new_string@, replace_all),
    {
        Strategy::BlockAnchor.try_replace(content, old_string, new_string, replace_all)
    }
}

/// Block match with whitespace runs collapsed.
#[derive(Debug)]
pub struct WhitespaceNormalizedReplacer;

impl WhitespaceNormalizedReplacer {
    /// The strategy's name.
    pub fn name(&self) -> (r: &'static str)
        ensures
            r@ == strategy_name(Strategy::WhitespaceNormalized),
    {
        Strategy::WhitespaceNormalized.name()
    }

    /// See `Strategy::try_replace`.
    pub fn try_replace(&self, content: &str, old_string: &str, new_string: &str, replace_all: bool) -> (r: Option<(String, usize)>)
        requires
            content@.len() < usize::MAX,
            strategy_outcome(Strategy::WhitespaceNormalized, content@, old_string@, new_string@, replace_all) is Some,
        ensures
            Some(outcome_view_s(r)) == strategy_outcome(Strategy::WhitespaceNormalized, content@, old_string@, new_string@, replace_all),
    {
        Strategy::WhitespaceNormalized.try_replace(content, old_string, new_string, replace_all)
    }
}

/// Block match ignoring the common indentation, re-indenting the replacement.
#[derive(Debug)]
pub struct IndentationFlexibleReplacer;

impl IndentationFlexibleReplacer {
    /// The strategy's name.
    pub fn name(&self) -> (r: &'static str)
        ensures
            r@ == strategy_name(Strategy::IndentationFlexible),
    {
        Strategy::IndentationFlexible.name()
    }

    /// See `Strategy::try_replace`.
    pub fn try_replace(&self, content: &str, old_string: &str, new_string: &str, replace_all: bool) -> (r: Option<(String, usize)>)
        requires
            content@.len() < usize::MAX,
            strategy_outcome(Strategy::IndentationFlexible, content@, old_string@, new_string@, replace_all) is Some,
        ensures
            Some(outcome_view_s(r)) == strategy_outcome(Strategy::IndentationFlexible, content@, old_string@, new_string@, replace_all),
    {
        Strategy::IndentationFlexible.try_replace(content, old_string, new_string, replace_all)
    }
}

/// Exact match of the escape-normalized old string.
#[derive(Debug)]
pub struct EscapeNormalizedReplacer;

impl EscapeNormalizedReplacer {
    /// The strategy's name.
    pub fn name(&self) -> (r: &'static str)
        ensures
            r@ == strategy_name(Strategy::EscapeNormalized),
    {
        Strategy::EscapeNormalized.name()
    }

    /// See `Strategy::try_replace`.
    pub fn try_replace(&self, content: &str, old_string: &str, new_string: &str, replace_all: bool) -> (r: Option<(String, usize)>)
        requires
            content@.len() < usize::MAX,
            strategy_outcome(Strategy::EscapeNormalized, content@, old_string@, new_string@, replace_all) is Some,
        ensures
            Some(outcome_view_s(r)) == strategy_outcome(Strategy::EscapeNormalized, content@, old_string@, new_string@, replace_all),
    {
        Strategy::EscapeNormalized.try_replace(content, old_string, new_string, replace_all)
    }
}

/// Exact match of the old string without its first and last line.
#[derive(Debug)]
pub struct TrimmedBoundaryReplacer;

impl TrimmedBoundaryReplacer {
    /// The strategy's name.
    pub fn name(&self) -> (r: &'static str)
        ensures
            r@ == strategy_name(Strategy::TrimmedBoundary),
    {
        Strategy::TrimmedBoundary.name()
    }

    /// See `Strategy::try_replace`.
    pub fn try_replace(&self, content: &str, old_string: &str, new_string: &str, replace_all: bool) -> (r: Option<(String, usize)>)
        requires
            content@.len() < usize::MAX,
            strategy_outcome(Strategy::TrimmedBoundary, content@, old_string@, new_string@, replace_all) is Some,
        ensures
            Some(outcome_view_s(r)) == strategy_outcome(Strategy::TrimmedBoundary, content@, old_string@, new_string@, replace_all),
    {
        Strategy::TrimmedBoundary.try_replace(content, old_string, new_string, replace_all)
    }
}

/// Block located by its first and last line.
#[derive(Debug)]
pub struct ContextAwareReplacer;

impl ContextAwareReplacer {
    /// The strategy's name.
    pub fn name(&self) -> (r: &'static str)
        ensures
            r@ == strategy_name(Strategy::ContextAware),
    {
        Strategy::ContextAware.name()
    }

    /// See `Strategy::try_replace`.
    pub fn try_replace(&self, content: &str, old_string: &str, new_string: &str, replace_all: bool) -> (r: Option<(String, usize)>)
        requires
            content@.len() < usize::MAX,
            strategy_outcome(Strategy::ContextAware, content@, old_string@, new_string@, replace_all) is Some,
        ensures
            Some(outcome_view_s(r)) == strategy_outcome(Strategy::ContextAware, content@, old_string@, new_string@, replace_all),
    {
        Strategy::ContextAware.try_replace(content, old_string, new_string, replace_all)
    }
}

/// First of several exact matches, or all of them.
#[derive(Debug)]
pub struct MultiOccurrenceReplacer;

impl MultiOccurrenceReplacer {
    /// The strategy's name.
    pub fn name(&self) -> (r: &'static str)
        ensures
            r@ == strategy_name(Strategy::MultiOccurrence),
    {
        Strategy::MultiOccurrence.name()
    }

    /// See `Strategy::try_replace`.
    pub fn try_replace(&self, content: &str, old_string: &str, new_string: &str, replace_all: bool) -> (r: Option<(String, usize)>)
        requires
            content@.len() < usize::MAX,
            strategy_outcome(Strategy::MultiOccurrence, content@, old_string@, new_string@, replace_all) is Some,
        ensures
            Some(outcome_view_s(r)) == strategy_outcome(Strategy::MultiOccurrence, content@, old_string@, new_string@, replace_all),
    {
        Strategy::MultiOccurrence.try_replace(content, old_string, new_string, replace_all)
    }
}

/// When the escape-normalizing strategy edits, what it writes in place of
/// the escape-normalized old string is the escape-normalized new string:
/// for a single edit, the content up to the match, then
/// `normalize_escapes(new)`, then the content after the match; for
/// `replace_all`, every match replaced by `normalize_escapes(new)`.
pub proof fn lemma_escape_writes_normalized_new(content: Seq<char>, old: Seq<char>, new: Seq<char>)
    ensures
        strategy_outcome(Strategy::EscapeNormalized, content, old, new, false) matches Some(Some((out, n))) ==> n == 1
            && exists|k: int|
            crate::text::occurs_at(content, normalize_escapes_spec(old), k) && out == #[trigger] content.take(k)
                + normalize_escapes_spec(new) + content.skip(k + normalize_escapes_spec(old).len()),
        strategy_outcome(Strategy::EscapeNormalized, content, old, new, true) matches Some(Some((out, n))) ==> out
            == replaced_all(content, normalize_escapes_spec(old), normalize_escapes_spec(new)) && n == count_matches(
            content,
            normalize_escapes_spec(old),
        ) && n > 0,
{
    let no = normalize_escapes_spec(old);
    if let Some(Some((out, n))) = strategy_outcome(Strategy::EscapeNormalized, content, old, new, false) {
        assert(count_matches(content, no) > 0);
        crate::text::lemma_find_from_props(content, no, 0);
        if no.len() == 0 {
            assert(content.subrange(0, 0) =~= no);
            assert(crate::text::occurs_at(content, no, 0));
        }
        let k = crate::text::find_from(content, no, 0);
        assert(k >= 0);
        assert(crate::text::occurs_at(content, no, k));
        assert(out == content.take(k) + normalize_escapes_spec(new) + content.skip(k + no.len()));
    }
}

} // verus!
