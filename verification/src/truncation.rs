//! Shared truncation of tool output to line and byte limits.
//!
//! When the output is over either limit, only as many whole lines as fit are
//! kept (from the head or the tail) and a notice states how many lines and
//! bytes were dropped. Persisting the full text to disk is left to the
//! caller, who passes the path it was saved under.
use vstd::prelude::*;

use crate::text::{append_chars, append_str, byte_len, chars_of, copy_lines, decimal, decimal_vec, index_of, join, join_vec, lemma_index_of_props, lemma_utf8_len_subrange, lines_of, lines_vec, str_byte_len, string_of, strip_cr, utf8_len, views};

verus! {

/// Maximum number of lines before truncation.
pub const MAX_LINES: usize = 2000;

/// Maximum number of bytes before truncation.
pub const MAX_BYTES: usize = 50 * 1024;

/// Direction of truncation.
#[derive(Clone, Copy, PartialEq, Eq, Structural, Debug)]
pub enum TruncationDirection {
    /// Keep the first lines (default).
    Head,
    /// Keep the last lines.
    Tail,
}

impl Default for TruncationDirection {
    fn default() -> (d: Self)
        ensures
            d == TruncationDirection::Head,
    {
        TruncationDirection::Head
    }
}

/// Outcome of truncating a text.
#[derive(Debug)]
pub struct TruncationResult {
    pub content: String,
    pub truncated: bool,
    pub original_lines: usize,
    pub original_bytes: usize,
}

/// Bytes a kept line accounts for: its own bytes plus one for the newline.
pub open spec fn line_cost(l: Seq<char>) -> nat {
    utf8_len(l) + 1
}

/// Sum of `line_cost` over `ls`.
pub open spec fn cost_sum(ls: Seq<Seq<char>>) -> nat
    decreases ls.len(),
{
    if ls.len() == 0 {
        0
    } else {
        line_cost(ls[0]) + cost_sum(ls.drop_first())
    }
}

/// How many leading lines are kept: lines are taken in order while fewer
/// than `max_lines` are kept and the next one still fits in `budget` bytes.
pub open spec fn head_keep(ls: Seq<Seq<char>>, max_lines: nat, budget: nat) -> nat
    decreases ls.len(),
{
    if ls.len() == 0 || max_lines == 0 || line_cost(ls[0]) > budget {
        0
    } else {
        1 + head_keep(ls.drop_first(), (max_lines - 1) as nat, (budget - line_cost(ls[0])) as nat)
    }
}

/// How many trailing lines are kept, taking lines from the end.
pub open spec fn tail_keep(ls: Seq<Seq<char>>, max_lines: nat, budget: nat) -> nat
    decreases ls.len(),
{
    if ls.len() == 0 || max_lines == 0 || line_cost(ls.last()) > budget {
        0
    } else {
        1 + tail_keep(ls.drop_last(), (max_lines - 1) as nat, (budget - line_cost(ls.last())) as nat)
    }
}

/// Is `text` over either limit?
pub open spec fn over_limits(text: Seq<char>, max_lines: nat, max_bytes: nat) -> bool {
    !(lines_of(text).len() <= max_lines && utf8_len(text) <= max_bytes)
}

/// The pointer to the full output that the notice carries.
pub open spec fn hint_text(saved_path: Option<Seq<char>>) -> Seq<char> {
    match saved_path {
        Some(p) => "Full output saved to: "@ + p
            + "\nUse Grep to search or Read with offset/limit to view specific sections."@,
        None => "Use grep/read with offset to see full content"@,
    }
}

/// `... [N lines, M bytes truncated. HINT] ...`
pub open spec fn notice_text(removed_lines: nat, removed_bytes: nat, hint: Seq<char>) -> Seq<char> {
    "... ["@ + decimal(removed_lines) + " lines, "@ + decimal(removed_bytes)
        + " bytes truncated. "@ + hint + "] ..."@
}

/// The lines kept in the given direction.
pub open spec fn kept_lines(
    text: Seq<char>,
    max_lines: nat,
    max_bytes: nat,
    direction: TruncationDirection,
) -> Seq<Seq<char>> {
    let ls = lines_of(text);
    match direction {
        TruncationDirection::Head => ls.take(head_keep(ls, max_lines, max_bytes) as int),
        TruncationDirection::Tail => ls.skip(ls.len() - tail_keep(ls, max_lines, max_bytes)),
    }
}

/// The content of a truncated result.
pub open spec fn truncated_content(
    text: Seq<char>,
    max_lines: nat,
    max_bytes: nat,
    direction: TruncationDirection,
    saved_path: Option<Seq<char>>,
) -> Seq<char> {
    let kept = kept_lines(text, max_lines, max_bytes, direction);
    let notice = notice_text(
        (lines_of(text).len() - kept.len()) as nat,
        (utf8_len(text) - cost_sum(kept)) as nat,
        hint_text(saved_path),
    );
    match direction {
        TruncationDirection::Head => join(kept, "\n"@) + "\n\n"@ + notice,
        TruncationDirection::Tail => notice + "\n\n"@ + join(kept, "\n"@),
    }
}

pub proof fn lemma_cost_sum_concat(a: Seq<Seq<char>>, b: Seq<Seq<char>>)
    ensures
        cost_sum(a + b) == cost_sum(a) + cost_sum(b),
    decreases a.len(),
{
    if a.len() > 0 {
        assert((a + b).drop_first() =~= a.drop_first() + b);
        lemma_cost_sum_concat(a.drop_first(), b);
    } else {
        assert(a + b =~= b);
    }
}

pub proof fn lemma_cost_sum_single(l: Seq<char>)
    ensures
        cost_sum(seq![l]) == line_cost(l),
{
    let t = seq![l];
    assert(t.drop_first() =~= Seq::<Seq<char>>::empty());
    assert(cost_sum(t.drop_first()) == 0);
    assert(t[0] == l);
}

/// Line costs are bounded by the text they come from: all lines together
/// by one more than its bytes, and any proper prefix or suffix of them by
/// its bytes.
pub proof fn lemma_lines_cost_bound(s: Seq<char>)
    ensures
        cost_sum(lines_of(s)) <= utf8_len(s) + 1,
        forall|n: int|
            0 <= n < lines_of(s).len() ==> cost_sum(#[trigger] lines_of(s).take(n)) <= utf8_len(s),
        forall|n: int|
            0 <= n < lines_of(s).len() ==> cost_sum(
                #[trigger] lines_of(s).skip(lines_of(s).len() - n),
            ) <= utf8_len(s),
        forall|j: int|
            0 <= j < lines_of(s).len() ==> utf8_len(#[trigger] lines_of(s)[j]) <= utf8_len(s),
    decreases s.len(),
{
    let ls = lines_of(s);
    if s.len() == 0 {
        assert(ls.len() == 0);
    } else {
        let k = index_of(s, '\n');
        lemma_index_of_props(s, '\n');
        if k < 0 {
            assert(ls =~= seq![s]);
            lemma_cost_sum_single(s);
            assert forall|n: int| 0 <= n < ls.len() implies cost_sum(#[trigger] ls.take(n)) <= utf8_len(s) by {
                assert(ls.take(n) =~= Seq::<Seq<char>>::empty());
            }
            assert forall|n: int| 0 <= n < ls.len() implies cost_sum(#[trigger] ls.skip(ls.len() - n)) <= utf8_len(s) by {
                assert(ls.skip(ls.len() - n) =~= Seq::<Seq<char>>::empty());
            }
        } else {
            let head = s.take(k);
            let a = strip_cr(head);
            let rest = s.skip(k + 1);
            let r = lines_of(rest);
            lemma_lines_cost_bound(rest);
            assert(ls =~= seq![a] + r);
            lemma_cost_sum_concat(seq![a], r);
            lemma_cost_sum_single(a);
            // bytes of s = bytes of head + 1 + bytes of rest
            lemma_utf8_len_subrange(s, k, k + 1);
            assert(s.subrange(k, k + 1) =~= seq!['\n']);
            let nl = seq!['\n'];
            assert(nl.drop_first() =~= Seq::<char>::empty());
            assert(utf8_len(nl.drop_first()) == 0);
            assert(nl[0] == '\n');
            assert(('\n' as u32) == 10);
            assert(utf8_len(nl) == 1);
            assert(s.take(k) =~= head);
            assert(s.skip(k + 1) =~= rest);
            assert(utf8_len(a) <= utf8_len(head)) by {
                if head.len() > 0 && head.last() == '\r' {
                    lemma_utf8_len_subrange(head, 0, head.len() - 1);
                    assert(head.subrange(0, head.len() - 1) =~= a);
                }
            }
            assert forall|n: int| 0 <= n < ls.len() implies cost_sum(#[trigger] ls.take(n)) <= utf8_len(s) by {
                if n == 0 {
                    assert(ls.take(n) =~= Seq::<Seq<char>>::empty());
                } else {
                    assert(ls.take(n) =~= seq![a] + r.take(n - 1));
                    lemma_cost_sum_concat(seq![a], r.take(n - 1));
                    assert(cost_sum(r.take(n - 1)) <= utf8_len(rest));
                }
            }
            assert forall|n: int| 0 <= n < ls.len() implies cost_sum(#[trigger] ls.skip(ls.len() - n)) <= utf8_len(s) by {
                assert(ls.skip(ls.len() - n) =~= r.skip(r.len() - n));
                if n < r.len() {
                    assert(cost_sum(r.skip(r.len() - n)) <= utf8_len(rest));
                } else {
                    assert(r.skip(r.len() - n) =~= r);
                }
            }
            assert forall|j: int| 0 <= j < ls.len() implies utf8_len(#[trigger] ls[j]) <= utf8_len(s) by {
                if j > 0 {
                    assert(ls[j] == r[j - 1]);
                }
            }
        }
    }
}

/// Is `text` over `max_lines` lines or `max_bytes` bytes?
pub fn needs_truncation(text: &str, max_lines: usize, max_bytes: usize) -> (r: bool)
    ensures
        r == over_limits(text@, max_lines as nat, max_bytes as nat),
{
    let cs = chars_of(text);
    let lines = lines_vec(&cs);
    let total_bytes = str_byte_len(text);
    !(lines.len() <= max_lines && total_bytes <= max_bytes)
}

/// Truncate tool output to fit within line and byte limits, keeping the
/// head. `saved_path` is where the full text was persisted, if anywhere.
pub fn truncate_output(
    text: &str,
    max_lines: usize,
    max_bytes: usize,
    saved_path: Option<&str>,
) -> (r: TruncationResult)
    ensures
        r.original_lines == lines_of(text@).len(),
        r.original_bytes == utf8_len(text@),
        r.truncated == over_limits(text@, max_lines as nat, max_bytes as nat),
        !r.truncated ==> r.content@ == text@,
        r.truncated ==> r.content@ == truncated_content(
            text@,
            max_lines as nat,
            max_bytes as nat,
            TruncationDirection::Head,
            match saved_path {
                Some(p) => Some(p@),
                None => None,
            },
        ),
{
    truncate_output_directed(text, max_lines, max_bytes, TruncationDirection::Head, saved_path)
}

/// Truncate tool output with configurable direction. `saved_path` is where
/// the full text was persisted, if anywhere.
pub fn truncate_output_directed(
    text: &str,
    max_lines: usize,
    max_bytes: usize,
    direction: TruncationDirection,
    saved_path: Option<&str>,
) -> (r: TruncationResult)
    ensures
        r.original_lines == lines_of(text@).len(),
        r.original_bytes == utf8_len(text@),
        r.truncated == over_limits(text@, max_lines as nat, max_bytes as nat),
        !r.truncated ==> r.content@ == text@,
        r.truncated ==> r.content@ == truncated_content(
            text@,
            max_lines as nat,
            max_bytes as nat,
            direction,
            match saved_path {
                Some(p) => Some(p@),
                None => None,
            },
        ),
{
    let cs = chars_of(text);
    let lines = lines_vec(&cs);
    let total_bytes = str_byte_len(text);
    let total_lines = lines.len();
    let ghost ls = lines_of(text@);
    proof {
        lemma_lines_cost_bound(text@);
    }

    if total_lines <= max_lines && total_bytes <= max_bytes {
        return TruncationResult {
            content: string_of(&cs),
            truncated: false,
            original_lines: total_lines,
            original_bytes: total_bytes,
        };
    }

    let mut hint: Vec<char> = Vec::new();
    match saved_path {
        Some(p) => {
            append_str(&mut hint, "Full output saved to: ");
            append_str(&mut hint, p);
            append_str(
                &mut hint,
                "\nUse Grep to search or Read with offset/limit to view specific sections.",
            );
        },
        None => {
            append_str(&mut hint, "Use grep/read with offset to see full content");
        },
    }
    let ghost saved = match saved_path {
        Some(p) => Some(p@),
        None => None,
    };
    assert(hint@ == hint_text(saved));

    // Select the kept lines.
    let mut n: usize = 0;
    let mut bytes: usize = 0;
    match direction {
        TruncationDirection::Head => {
            assert(ls.take(0) =~= Seq::<Seq<char>>::empty());
            assert(ls.skip(0) =~= ls);
            while n < total_lines
                invariant
                    views(lines@) == ls,
                    total_lines == ls.len(),
                    utf8_len(text@) <= usize::MAX,
                    forall|j: int| 0 <= j < ls.len() ==> utf8_len(#[trigger] ls[j]) <= utf8_len(text@),
                    n <= total_lines,
                    n <= max_lines,
                    bytes <= max_bytes,
                    bytes == cost_sum(ls.take(n as int)),
                    head_keep(ls, max_lines as nat, max_bytes as nat) == n + head_keep(
                        ls.skip(n as int),
                        (max_lines - n) as nat,
                        (max_bytes - bytes) as nat,
                    ),
                ensures
                    n <= total_lines,
                    n <= max_lines,
                    bytes <= max_bytes,
                    bytes == cost_sum(ls.take(n as int)),
                    head_keep(ls, max_lines as nat, max_bytes as nat) == n,
                decreases total_lines - n,
            {
                assert(ls[n as int] == lines@[n as int]@);
                let lb = byte_len(&lines[n]);
                let ghost rest = ls.skip(n as int);
                assert(rest[0] == ls[n as int]);
                assert(rest.drop_first() =~= ls.skip(n + 1));
                if n >= max_lines || lb >= max_bytes - bytes {
                    break;
                }
                proof {
                    assert(ls.take(n + 1) =~= ls.take(n as int) + seq![ls[n as int]]);
                    lemma_cost_sum_concat(ls.take(n as int), seq![ls[n as int]]);
                    lemma_cost_sum_single(ls[n as int]);
                }
                bytes = bytes + lb + 1;
                n = n + 1;
            }
        },
        TruncationDirection::Tail => {
            assert(ls.skip(ls.len() as int) =~= Seq::<Seq<char>>::empty());
            assert(ls.take(ls.len() as int) =~= ls);
            while n < total_lines
                invariant
                    views(lines@) == ls,
                    total_lines == ls.len(),
                    utf8_len(text@) <= usize::MAX,
                    forall|j: int| 0 <= j < ls.len() ==> utf8_len(#[trigger] ls[j]) <= utf8_len(text@),
                    n <= total_lines,
                    n <= max_lines,
                    bytes <= max_bytes,
                    bytes == cost_sum(ls.skip(ls.len() - n)),
                    tail_keep(ls, max_lines as nat, max_bytes as nat) == n + tail_keep(
                        ls.take(ls.len() - n),
                        (max_lines - n) as nat,
                        (max_bytes - bytes) as nat,
                    ),
                ensures
                    n <= total_lines,
                    n <= max_lines,
                    bytes <= max_bytes,
                    bytes == cost_sum(ls.skip(ls.len() - n)),
                    tail_keep(ls, max_lines as nat, max_bytes as nat) == n,
                decreases total_lines - n,
            {
                let idx = total_lines - 1 - n;
                assert(ls[idx as int] == lines@[idx as int]@);
                let lb = byte_len(&lines[idx]);
                let ghost front = ls.take(ls.len() - n);
                assert(front.last() == ls[idx as int]);
                assert(front.drop_last() =~= ls.take(ls.len() - (n + 1)));
                if n >= max_lines || lb >= max_bytes - bytes {
                    break;
                }
                proof {
                    assert(ls.skip(ls.len() - (n + 1)) =~= seq![ls[idx as int]] + ls.skip(
                        ls.len() - n,
                    ));
                    lemma_cost_sum_concat(seq![ls[idx as int]], ls.skip(ls.len() - n));
                    lemma_cost_sum_single(ls[idx as int]);
                }
                bytes = bytes + lb + 1;
                n = n + 1;
            }
        },
    }
    proof {
        // The kept lines never account for more bytes than the text holds.
        if n < total_lines {
        } else {
            assert(ls.take(n as int) =~= ls);
            assert(ls.skip(ls.len() - n) =~= ls);
        }
    }
    let kept = match direction {
        TruncationDirection::Head => copy_lines(&lines, 0, n),
        TruncationDirection::Tail => copy_lines(&lines, total_lines - n, total_lines),
    };
    assert(views(kept@) == kept_lines(text@, max_lines as nat, max_bytes as nat, direction)) by {
        assert(ls.subrange(0, n as int) =~= ls.take(n as int));
        assert(ls.subrange(ls.len() - n, ls.len() as int) =~= ls.skip(ls.len() - n));
    }
    let removed_lines = total_lines - n;
    let removed_bytes = total_bytes - bytes;

    let mut notice: Vec<char> = Vec::new();
    append_str(&mut notice, "... [");
    let rl = decimal_vec(removed_lines as u64);
    append_chars(&mut notice, &rl);
    append_str(&mut notice, " lines, ");
    let rb = decimal_vec(removed_bytes as u64);
    append_chars(&mut notice, &rb);
    append_str(&mut notice, " bytes truncated. ");
    append_chars(&mut notice, &hint);
    append_str(&mut notice, "] ...");

    let sep = chars_of("\n");
    let body = join_vec(&kept, &sep);
    let gap = chars_of("\n\n");
    let mut out: Vec<char> = Vec::new();
    match direction {
        TruncationDirection::Head => {
            append_chars(&mut out, &body);
            append_chars(&mut out, &gap);
            append_chars(&mut out, &notice);
        },
        TruncationDirection::Tail => {
            append_chars(&mut out, &notice);
            append_chars(&mut out, &gap);
            append_chars(&mut out, &body);
        },
    }
    let content = string_of(&out);
    TruncationResult {
        content,
        truncated: true,
        original_lines: total_lines,
        original_bytes: total_bytes,
    }
}

/// The lines kept from the head are at most `max_lines` leading lines
/// whose bytes, each with its newline, fit in `budget`.
pub proof fn lemma_head_keep_fits(ls: Seq<Seq<char>>, max_lines: nat, budget: nat)
    ensures
        head_keep(ls, max_lines, budget) <= max_lines,
        head_keep(ls, max_lines, budget) <= ls.len(),
        cost_sum(ls.take(head_keep(ls, max_lines, budget) as int)) <= budget,
    decreases ls.len(),
{
    let k = head_keep(ls, max_lines, budget);
    if ls.len() == 0 || max_lines == 0 || line_cost(ls[0]) > budget {
        assert(ls.take(0) =~= Seq::<Seq<char>>::empty());
    } else {
        let rest = ls.drop_first();
        let m = (max_lines - 1) as nat;
        let b = (budget - line_cost(ls[0])) as nat;
        lemma_head_keep_fits(rest, m, b);
        let kr = head_keep(rest, m, b);
        assert(ls.take(k as int) =~= seq![ls[0]] + rest.take(kr as int));
        lemma_cost_sum_concat(seq![ls[0]], rest.take(kr as int));
        lemma_cost_sum_single(ls[0]);
    }
}

/// The lines kept from the tail are at most `max_lines` trailing lines
/// whose bytes, each with its newline, fit in `budget`.
pub proof fn lemma_tail_keep_fits(ls: Seq<Seq<char>>, max_lines: nat, budget: nat)
    ensures
        tail_keep(ls, max_lines, budget) <= max_lines,
        tail_keep(ls, max_lines, budget) <= ls.len(),
        cost_sum(ls.skip(ls.len() - tail_keep(ls, max_lines, budget))) <= budget,
    decreases ls.len(),
{
    let k = tail_keep(ls, max_lines, budget);
    if ls.len() == 0 || max_lines == 0 || line_cost(ls.last()) > budget {
        assert(ls.skip(ls.len() as int) =~= Seq::<Seq<char>>::empty());
    } else {
        let rest = ls.drop_last();
        let m = (max_lines - 1) as nat;
        let b = (budget - line_cost(ls.last())) as nat;
        lemma_tail_keep_fits(rest, m, b);
        let kr = tail_keep(rest, m, b);
        assert(ls.skip(ls.len() - k) =~= rest.skip(rest.len() - kr) + seq![ls.last()]);
        lemma_cost_sum_concat(rest.skip(rest.len() - kr), seq![ls.last()]);
        lemma_cost_sum_single(ls.last());
    }
}

/// Truncation keeps at most `max_lines` whole lines, from the head or the
/// tail, whose bytes (each line with its newline) fit in `max_bytes`.
pub proof fn lemma_kept_within_limits(text: Seq<char>, max_lines: nat, max_bytes: nat, direction: TruncationDirection)
    ensures
        kept_lines(text, max_lines, max_bytes, direction).len() <= max_lines,
        cost_sum(kept_lines(text, max_lines, max_bytes, direction)) <= max_bytes,
        direction == TruncationDirection::Head ==> kept_lines(text, max_lines, max_bytes, direction) == lines_of(
            text,
        ).take(kept_lines(text, max_lines, max_bytes, direction).len() as int),
        direction == TruncationDirection::Tail ==> kept_lines(text, max_lines, max_bytes, direction) == lines_of(
            text,
        ).skip(lines_of(text).len() - kept_lines(text, max_lines, max_bytes, direction).len()),
{
    let ls = lines_of(text);
    match direction {
        TruncationDirection::Head => {
            lemma_head_keep_fits(ls, max_lines, max_bytes);
        },
        TruncationDirection::Tail => {
            lemma_tail_keep_fits(ls, max_lines, max_bytes);
        },
    }
}

} // verus!
