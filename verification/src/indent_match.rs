//! Indentation-flexible matching: blocks are compared with their common
//! leading indentation removed, and the replacement is re-indented with the
//! indentation found in the file.
//!
//! Indentation is measured in bytes, as `str` slicing measures it; a line
//! whose byte offset would fall inside a multi-byte whitespace character
//! cannot be stripped, and the specification marks such inputs.
use vstd::prelude::*;
use crate::edit_strategies::{chosen, chosen_exec, finish_lines, finish_lines_exec, outcome_view, positions, Outcome};
use crate::text::{append_chars, char_width, copy_lines, lemma_utf8_len_push, lemma_views_push, lines_of, lines_vec, slice_vec, trim, trim_start, trim_start_vec, trim_vec, utf8_len, utf8_width, views, ws_prefix, ws_prefix_len};

verus! {

/// Byte length of the leading whitespace of `l`.
pub open spec fn indent_bytes(l: Seq<char>) -> nat {
    utf8_len(l.take(ws_prefix_len(l) as int))
}

/// Smallest indentation over the non-blank lines, if there is one.
pub open spec fn min_indent_opt(ls: Seq<Seq<char>>) -> Option<nat>
    decreases ls.len(),
{
    if ls.len() == 0 {
        None
    } else {
        let rest = min_indent_opt(ls.drop_last());
        let l = ls.last();
        if trim(l).len() == 0 {
            rest
        } else {
            match rest {
                None => Some(indent_bytes(l)),
                Some(m) => Some(if indent_bytes(l) < m { indent_bytes(l) } else { m }),
            }
        }
    }
}

/// Smallest indentation over the non-blank lines, `0` when all are blank.
pub open spec fn min_indent(ls: Seq<Seq<char>>) -> nat {
    match min_indent_opt(ls) {
        Some(m) => m,
        None => 0,
    }
}

/// `l[b..]` for a byte offset `b`; `None` when `b` is not a character
/// boundary of `l`.
pub open spec fn byte_skip(l: Seq<char>, b: nat) -> Option<Seq<char>>
    decreases l.len(),
{
    if b == 0 {
        Some(l)
    } else if l.len() == 0 {
        None
    } else if utf8_width(l[0]) <= b {
        byte_skip(l.drop_first(), (b - utf8_width(l[0])) as nat)
    } else {
        None
    }
}

/// One line with `mi` bytes of indentation removed; a line shorter than
/// that loses its leading whitespace.
pub open spec fn strip_line(l: Seq<char>, mi: nat) -> Option<Seq<char>> {
    if utf8_len(l) >= mi {
        byte_skip(l, mi)
    } else {
        Some(trim_start(l))
    }
}

/// Every line stripped; `None` when some line cannot be.
pub open spec fn strip_lines(ls: Seq<Seq<char>>, mi: nat) -> Option<Seq<Seq<char>>>
    decreases ls.len(),
{
    if ls.len() == 0 {
        Some(seq![])
    } else {
        match (strip_lines(ls.drop_last(), mi), strip_line(ls.last(), mi)) {
            (Some(a), Some(b)) => Some(a.push(b)),
            _ => None,
        }
    }
}

/// `n` spaces.
pub open spec fn spaces(n: nat) -> Seq<char> {
    Seq::new(n, |i: int| ' ')
}

/// The indentation a block is re-indented with: the leading whitespace of
/// its first line when that line is not blank, else `min_indent` spaces.
pub open spec fn block_indent(ls: Seq<Seq<char>>) -> Seq<char> {
    if ls.len() > 0 && trim(ls[0]).len() > 0 {
        ls[0].take(ws_prefix_len(ls[0]) as int)
    } else {
        spaces(min_indent(ls))
    }
}

/// The block with its common indentation removed, and its indentation.
pub open spec fn strip_indent(ls: Seq<Seq<char>>) -> Option<(Seq<Seq<char>>, Seq<char>)> {
    match strip_lines(ls, min_indent(ls)) {
        None => None,
        Some(st) => Some((st, block_indent(ls))),
    }
}

/// New lines re-indented: blank lines become empty, others get `indent`
/// before their text.
pub open spec fn reindent(new_lines: Seq<Seq<char>>, indent: Seq<char>) -> Seq<Seq<char>> {
    new_lines.map_values(|l: Seq<char>| if trim(l).len() == 0 { Seq::<char>::empty() } else { indent + trim_start(l) })
}

/// The block of `n` lines at `i` strips to `so`.
pub open spec fn indent_pred(cl: Seq<Seq<char>>, n: nat, so: Seq<Seq<char>>) -> spec_fn(int) -> bool {
    |i: int|
        match strip_indent(cl.subrange(i, i + n)) {
            Some((st, _)) => st == so,
            None => false,
        }
}

/// Some block of `n` lines starting before `k` cannot be stripped.
pub open spec fn some_block_unstrippable(cl: Seq<Seq<char>>, n: nat, k: int) -> bool {
    exists|i: int| 0 <= i < k && #[trigger] strip_indent(cl.subrange(i, i + n)) is None
}

/// Like `splice_desc`, with the replacement lines given per start.
pub open spec fn splice_desc_each(
    lines: Seq<Seq<char>>,
    starts: Seq<usize>,
    old_len: nat,
    news: Seq<Seq<Seq<char>>>,
) -> Option<Seq<Seq<char>>>
    decreases starts.len(),
{
    if starts.len() == 0 {
        Some(lines)
    } else {
        let st = starts.last() as int;
        if st + old_len > lines.len() {
            None
        } else {
            splice_desc_each(
                lines.take(st) + news.last() + lines.skip(st + old_len),
                starts.drop_last(),
                old_len,
                news.drop_last(),
            )
        }
    }
}

/// Indentation-flexible matching. The outer `None` marks inputs on which
/// stripping slices inside a character, the old string has more lines than
/// the content, or the splicing of overlapping matches runs past the end.
pub open spec fn indentation_flexible_spec(content: Seq<char>, old: Seq<char>, new: Seq<char>, replace_all: bool) -> Option<Outcome> {
    let ol = lines_of(old);
    let cl = lines_of(content);
    let n = ol.len();
    if n == 0 {
        Some(None)
    } else if strip_indent(ol) is None || n > cl.len() {
        None
    } else if some_block_unstrippable(cl, n, cl.len() - n + 1) {
        None
    } else {
        let so = strip_indent(ol).unwrap().0;
        let ms = positions(cl.len() - n + 1, indent_pred(cl, n, so));
        if ms.len() == 0 || (ms.len() > 1 && !replace_all) {
            Some(None)
        } else {
            let starts = chosen(ms, replace_all);
            let news = starts.map_values(
                |st: usize| reindent(lines_of(new), block_indent(cl.subrange(st as int, st + n))),
            );
            match splice_desc_each(cl, starts, n, news) {
                None => None,
                Some(rl) => Some(Some((finish_lines(content, rl), starts.len()))),
            }
        }
    }
}

// ---------------------------------------------------------------------------
// Lemmas
// ---------------------------------------------------------------------------

proof fn lemma_strip_lines_prefix(ls: Seq<Seq<char>>, mi: nat, i: int)
    requires
        0 <= i <= ls.len(),
        strip_lines(ls.take(i), mi) is None,
    ensures
        strip_lines(ls, mi) is None,
    decreases ls.len(),
{
    if i == ls.len() {
        assert(ls.take(i) =~= ls);
    } else {
        assert(ls.drop_last().take(i) =~= ls.take(i));
        lemma_strip_lines_prefix(ls.drop_last(), mi, i);
    }
}

proof fn lemma_byte_skip_step(l: Seq<char>, j: int, rem: nat)
    requires
        0 <= j < l.len(),
        rem > 0,
    ensures
        byte_skip(l.skip(j), rem) == if utf8_width(l[j]) <= rem {
            byte_skip(l.skip(j + 1), (rem - utf8_width(l[j])) as nat)
        } else {
            None::<Seq<char>>
        },
{
    assert(l.skip(j).drop_first() =~= l.skip(j + 1));
    assert(l.skip(j)[0] == l[j]);
}

proof fn lemma_utf8_take_step(s: Seq<char>, j: int)
    requires
        0 <= j < s.len(),
    ensures
        utf8_len(s.take(j + 1)) == utf8_len(s.take(j)) + utf8_width(s[j]),
{
    lemma_utf8_len_push(s.take(j), s[j]);
    assert(s.take(j).push(s[j]) =~= s.take(j + 1));
}

// ---------------------------------------------------------------------------
// Executable parts
// ---------------------------------------------------------------------------

/// Bytes of the first `k` characters of `cs`.
fn prefix_bytes(cs: &[char], k: usize) -> (r: u128)
    requires
        k <= cs.len(),
    ensures
        r == utf8_len(cs@.take(k as int)),
{
    let mut acc: u128 = 0;
    let mut j: usize = 0;
    while j < k
        invariant
            j <= k <= cs.len(),
            acc == utf8_len(cs@.take(j as int)),
            acc <= 4 * j,
        decreases k - j,
    {
        proof {
            lemma_utf8_take_step(cs@, j as int);
        }
        let w = char_width(cs[j]);
        acc = acc + (w as u128);
        j = j + 1;
    }
    acc
}

/// `byte_skip`.
pub(crate) fn byte_skip_exec(l: &[char], b: u128) -> (r: Option<Vec<char>>)
    ensures
        match r {
            None => byte_skip(l@, b as nat) is None,
            Some(v) => byte_skip(l@, b as nat) == Some(v@),
        },
{
    let mut j: usize = 0;
    let mut rem: u128 = b;
    assert(l@.skip(0) =~= l@);
    while rem > 0
        invariant
            j <= l.len(),
            byte_skip(l@, b as nat) == byte_skip(l@.skip(j as int), rem as nat),
        decreases rem,
    {
        if j >= l.len() {
            assert(l@.skip(j as int).len() == 0);
            return None;
        }
        let w = char_width(l[j]) as u128;
        proof {
            lemma_byte_skip_step(l@, j as int, rem as nat);
        }
        if w > rem {
            return None;
        }
        rem = rem - w;
        j = j + 1;
    }
    let out = slice_vec(l, j, l.len());
    assert(l@.subrange(j as int, l@.len() as int) =~= l@.skip(j as int));
    Some(out)
}

/// `min_indent`.
fn min_indent_exec(ls: &Vec<Vec<char>>) -> (r: u128)
    ensures
        r == min_indent(views(ls@)),
{
    let mut seen = false;
    let mut m: u128 = 0;
    let mut i: usize = 0;
    while i < ls.len()
        invariant
            i <= ls.len(),
            match min_indent_opt(views(ls@).take(i as int)) {
                None => !seen,
                Some(v) => seen && m == v,
            },
        decreases ls.len() - i,
    {
        let l = &ls[i];
        proof {
            assert(views(ls@).take(i + 1).drop_last() =~= views(ls@).take(i as int));
            assert(views(ls@).take(i + 1).last() == l@);
        }
        let t = trim_vec(l);
        if t.len() > 0 {
            let k = ws_prefix(l);
            let ib = prefix_bytes(l, k);
            if !seen || ib < m {
                m = ib;
                seen = true;
            }
        }
        i = i + 1;
    }
    assert(views(ls@).take(ls@.len() as int) =~= views(ls@));
    if seen {
        m
    } else {
        0
    }
}

/// `strip_line`.
fn strip_line_exec(l: &[char], mi: u128) -> (r: Option<Vec<char>>)
    ensures
        match r {
            None => strip_line(l@, mi as nat) is None,
            Some(v) => strip_line(l@, mi as nat) == Some(v@),
        },
{
    let total = prefix_bytes(l, l.len());
    assert(l@.take(l@.len() as int) =~= l@);
    if total >= mi {
        byte_skip_exec(l, mi)
    } else {
        Some(trim_start_vec(l))
    }
}

/// `n` spaces.
fn spaces_exec(n: u128) -> (r: Vec<char>)
    ensures
        r@ == spaces(n as nat),
{
    let mut out: Vec<char> = Vec::new();
    let mut i: u128 = 0;
    while i < n
        invariant
            i <= n,
            out@ == spaces(i as nat),
        decreases n - i,
    {
        out.push(' ');
        assert(out@ =~= spaces((i + 1) as nat));
        i = i + 1;
    }
    out
}

/// `strip_indent`.
fn strip_indent_exec(ls: &Vec<Vec<char>>) -> (r: Option<(Vec<Vec<char>>, Vec<char>)>)
    ensures
        match r {
            None => strip_indent(views(ls@)) is None,
            Some((st, ind)) => strip_indent(views(ls@)) == Some((views(st@), ind@)),
        },
{
    let mi = min_indent_exec(ls);
    let ghost lv = views(ls@);
    let mut out: Vec<Vec<char>> = Vec::new();
    let mut i: usize = 0;
    assert(lv.take(0) =~= Seq::<Seq<char>>::empty());
    while i < ls.len()
        invariant
            i <= ls.len(),
            lv == views(ls@),
            mi == min_indent(lv),
            strip_lines(lv.take(i as int), mi as nat) == Some(views(out@)),
        decreases ls.len() - i,
    {
        proof {
            assert(lv.take(i + 1).drop_last() =~= lv.take(i as int));
            assert(lv.take(i + 1).last() == ls@[i as int]@);
        }
        match strip_line_exec(&ls[i], mi) {
            None => {
                proof {
                    lemma_strip_lines_prefix(lv, mi as nat, i + 1);
                }
                return None;
            },
            Some(s) => {
                proof {
                    lemma_views_push(out@, s);
                }
                out.push(s);
            },
        }
        i = i + 1;
    }
    assert(lv.take(ls@.len() as int) =~= lv);
    let indent = if ls.len() > 0 && trim_vec(&ls[0]).len() > 0 {
        let k = ws_prefix(&ls[0]);
        let v = slice_vec(&ls[0], 0, k);
        assert(ls@[0]@.subrange(0, k as int) =~= ls@[0]@.take(k as int));
        v
    } else {
        spaces_exec(mi)
    };
    proof {
        if ls@.len() > 0 {
            assert(lv[0] == ls@[0]@);
        }
    }
    Some((out, indent))
}

/// `reindent`.
fn reindent_exec(new_lines: &Vec<Vec<char>>, indent: &[char]) -> (r: Vec<Vec<char>>)
    ensures
        views(r@) == reindent(views(new_lines@), indent@),
{
    let mut out: Vec<Vec<char>> = Vec::new();
    let mut i: usize = 0;
    while i < new_lines.len()
        invariant
            i <= new_lines.len(),
            views(out@) == reindent(views(new_lines@), indent@).take(i as int),
        decreases new_lines.len() - i,
    {
        let l = &new_lines[i];
        let t = trim_vec(l);
        let line = if t.len() == 0 {
            Vec::new()
        } else {
            let mut v = slice_vec(indent, 0, indent.len());
            let ts = trim_start_vec(l);
            append_chars(&mut v, &ts);
            assert(indent@.subrange(0, indent@.len() as int) =~= indent@);
            v
        };
        proof {
            assert(views(new_lines@)[i as int] == l@);
            lemma_views_push(out@, line);
            assert(reindent(views(new_lines@), indent@).take(i + 1) =~= reindent(
                views(new_lines@),
                indent@,
            ).take(i as int).push(line@));
        }
        out.push(line);
        i = i + 1;
    }
    assert(reindent(views(new_lines@), indent@).take(new_lines@.len() as int) =~= reindent(
        views(new_lines@),
        indent@,
    ));
    out
}

/// Applies `splice_desc_each`.
fn splice_desc_each_exec(
    lines: Vec<Vec<char>>,
    starts: &Vec<usize>,
    old_len: usize,
    news: &Vec<Vec<Vec<char>>>,
) -> (r: Option<Vec<Vec<char>>>)
    requires
        news.len() == starts.len(),
    ensures
        match r {
            None => splice_desc_each(views(lines@), starts@, old_len as nat, news@.map_values(|v: Vec<Vec<char>>| views(v@))) is None,
            Some(out) => splice_desc_each(views(lines@), starts@, old_len as nat, news@.map_values(|v: Vec<Vec<char>>| views(v@)))
                == Some(views(out@)),
        },
{
    let ghost nv = news@.map_values(|v: Vec<Vec<char>>| views(v@));
    let mut cur = lines;
    let mut k = starts.len();
    assert(starts@.take(k as int) =~= starts@);
    assert(nv.take(k as int) =~= nv);
    while k > 0
        invariant
            k <= starts.len(),
            news.len() == starts.len(),
            nv == news@.map_values(|v: Vec<Vec<char>>| views(v@)),
            splice_desc_each(views(lines@), starts@, old_len as nat, nv) == splice_desc_each(
                views(cur@),
                starts@.take(k as int),
                old_len as nat,
                nv.take(k as int),
            ),
        decreases k,
    {
        let st = starts[k - 1];
        proof {
            let sk = starts@.take(k as int);
            assert(sk.last() == st);
            assert(sk.drop_last() =~= starts@.take(k - 1));
            assert(nv.take(k as int).drop_last() =~= nv.take(k - 1));
            assert(nv.take(k as int).last() == views(news@[k - 1]@));
        }
        if st > cur.len() || old_len > cur.len() - st {
            return None;
        }
        let mut next = copy_lines(&cur, 0, st);
        let tail = copy_lines(&cur, st + old_len, cur.len());
        crate::edit_strategies::append_lines(&mut next, &news[k - 1]);
        crate::edit_strategies::append_lines(&mut next, &tail);
        proof {
            assert(views(cur@).subrange(0, st as int) =~= views(cur@).take(st as int));
            assert(views(cur@).subrange(st + old_len, cur@.len() as int) =~= views(cur@).skip(st + old_len));
        }
        cur = next;
        k = k - 1;
    }
    assert(starts@.take(0) =~= Seq::<usize>::empty());
    Some(cur)
}

/// Runs `indentation_flexible_spec`.
pub fn indentation_flexible_exec(content: &[char], old: &[char], new: &[char], replace_all: bool) -> (r: Option<Option<(Vec<char>, usize)>>)
    ensures
        match r {
            None => indentation_flexible_spec(content@, old@, new@, replace_all) is None,
            Some(o) => indentation_flexible_spec(content@, old@, new@, replace_all) == Some(outcome_view(o)),
        },
{
    let ol = lines_vec(old);
    let cl = lines_vec(content);
    if ol.len() == 0 {
        return Some(None);
    }
    let so = match strip_indent_exec(&ol) {
        None => {
            return None;
        },
        Some((st, _)) => st,
    };
    if ol.len() > cl.len() {
        return None;
    }
    let n = ol.len();
    let ghost clv = views(cl@);
    let ghost pred = indent_pred(clv, n as nat, views(so@));
    let mut ms: Vec<usize> = Vec::new();
    let mut indents: Vec<Vec<char>> = Vec::new();
    let bound = cl.len() - n;
    let mut i: usize = 0;
    while i <= bound
        invariant
            bound == cl.len() - n,
            i <= bound + 1,
            n == ol.len(),
            n >= 1,
            clv == views(cl@),
            clv == lines_of(content@),
            views(ol@) == lines_of(old@),
            strip_indent(lines_of(old@)) is Some,
            strip_indent(lines_of(old@)).unwrap().0 == views(so@),
            pred == indent_pred(clv, n as nat, views(so@)),
            !some_block_unstrippable(clv, n as nat, i as int),
            ms@ == positions(i as int, pred),
            indents.len() == ms.len(),
            forall|k: int|
                0 <= k < ms.len() ==> (#[trigger] indents[k])@ == block_indent(
                    clv.subrange(ms[k] as int, ms[k] + n),
                ),
        decreases bound + 1 - i,
    {
        let block = copy_lines(&cl, i, i + n);
        match strip_indent_exec(&block) {
            None => {
                assert(strip_indent(clv.subrange(i as int, i + n)) is None);
                assert(some_block_unstrippable(clv, n as nat, bound + 1));
                return None;
            },
            Some((st, ind)) => {
                let eq = st.len() == so.len() && lines_eq(&st, &so);
                proof {
                    assert(views(block@) == clv.subrange(i as int, i + n));
                    assert(views(st@).len() == st@.len());
                    assert(views(so@).len() == so@.len());
                    assert(pred(i as int) == (views(st@) == views(so@)));
                    assert(pred(i as int) == eq);
                }
                if eq {
                    ms.push(i);
                    indents.push(ind);
                }
                assert(positions(i + 1, pred) == if pred(i as int) {
                    positions(i as int, pred).push(i)
                } else {
                    positions(i as int, pred)
                });
            },
        }
        proof {
            assert forall|j: int| 0 <= j < i + 1 implies !(#[trigger] strip_indent(clv.subrange(j, j + n)) is None) by {
                if j < i {
                    if strip_indent(clv.subrange(j, j + n)) is None {
                        assert(some_block_unstrippable(clv, n as nat, i as int));
                    }
                }
            }
        }
        i = i + 1;
    }
    if ms.len() == 0 || (ms.len() > 1 && !replace_all) {
        return Some(None);
    }
    let starts = chosen_exec(&ms, replace_all);
    let new_lines = lines_vec(new);
    let mut news: Vec<Vec<Vec<char>>> = Vec::new();
    let mut k: usize = 0;
    let ghost nlv = lines_of(new@);
    while k < starts.len()
        invariant
            k <= starts.len(),
            starts@ == chosen(ms@, replace_all),
            starts.len() <= ms.len(),
            forall|j: int| 0 <= j < starts.len() ==> starts[j] == ms[j],
            indents.len() == ms.len(),
            views(new_lines@) == nlv,
            forall|j: int|
                0 <= j < ms.len() ==> (#[trigger] indents[j])@ == block_indent(
                    clv.subrange(ms[j] as int, ms[j] + n),
                ),
            news.len() == k,
            forall|j: int|
                0 <= j < k ==> views((#[trigger] news[j])@) == reindent(
                    nlv,
                    block_indent(clv.subrange(starts[j] as int, starts[j] + n)),
                ),
        decreases starts.len() - k,
    {
        let r = reindent_exec(&new_lines, &indents[k]);
        news.push(r);
        k = k + 1;
    }
    let ghost newsv = starts@.map_values(
        |st: usize| reindent(nlv, block_indent(clv.subrange(st as int, st + n))),
    );
    assert(news@.map_values(|v: Vec<Vec<char>>| views(v@)) =~= newsv);
    let count = starts.len();
    match splice_desc_each_exec(cl, &starts, n, &news) {
        None => None,
        Some(rl) => {
            let out = finish_lines_exec(content, &rl);
            Some(Some((out, count)))
        },
    }
}

/// Line-by-line equality of two blocks of the same length.
fn lines_eq(a: &Vec<Vec<char>>, b: &Vec<Vec<char>>) -> (r: bool)
    requires
        a.len() == b.len(),
    ensures
        r == (views(a@) == views(b@)),
{
    let mut j: usize = 0;
    while j < a.len()
        invariant
            j <= a.len(),
            a.len() == b.len(),
            forall|k: int| 0 <= k < j ==> views(a@)[k] == views(b@)[k],
        decreases a.len() - j,
    {
        if !crate::text::chars_eq(&a[j], &b[j]) {
            assert(views(a@)[j as int] != views(b@)[j as int]);
            return false;
        }
        j = j + 1;
    }
    assert(views(a@) =~= views(b@));
    true
}

} // verus!
