//! Patch text parsing: heredoc stripping and hunk extraction.
//!
//! A patch is the text between a `*** Begin Patch` and an `*** End Patch`
//! line; it holds `*** Add File:`, `*** Delete File:` and `*** Update File:`
//! sections. Update sections carry `@@` chunks of context, removed (`-`),
//! added (`+`) and kept (` `) lines.
use vstd::prelude::*;
use crate::edit::{normalize_line_endings, normalize_line_endings_spec};
use crate::fuzzy_match::first_trimmed;
use crate::text::{chars_eq, chars_of, index_of, index_of_exec, lemma_index_of_props, lemma_views_push, slice_vec, split_on, split_vec, starts_with, starts_with_exec, string_of, trim, trim_start, trim_start_vec, trim_vec, views};

verus! {

// ---------------------------------------------------------------------------
// Types
// ---------------------------------------------------------------------------

/// A chunk within an update section.
#[derive(Debug)]
pub struct UpdateChunk {
    pub context: Option<String>,
    pub old_lines: Vec<String>,
    pub new_lines: Vec<String>,
    pub is_end_of_file: bool,
}

/// A parsed section of the patch.
#[derive(Debug)]
pub enum Hunk {
    Add { path: String, contents: String },
    Delete { path: String },
    Update { path: String, move_path: Option<String>, chunks: Vec<UpdateChunk> },
}

/// Model of an update chunk.
pub struct ChunkModel {
    pub context: Option<Seq<char>>,
    pub old_lines: Seq<Seq<char>>,
    pub new_lines: Seq<Seq<char>>,
    pub is_end_of_file: bool,
}

/// Model of a hunk.
pub enum HunkModel {
    Add { path: Seq<char>, contents: Seq<char> },
    Delete { path: Seq<char> },
    Update { path: Seq<char>, move_path: Option<Seq<char>>, chunks: Seq<ChunkModel> },
}

pub open spec fn opt_string_view(o: Option<String>) -> Option<Seq<char>> {
    match o {
        Some(s) => Some(s@),
        None => None,
    }
}

pub open spec fn strings_view(v: Seq<String>) -> Seq<Seq<char>> {
    v.map_values(|s: String| s@)
}

pub open spec fn chunk_view(c: UpdateChunk) -> ChunkModel {
    ChunkModel {
        context: opt_string_view(c.context),
        old_lines: strings_view(c.old_lines@),
        new_lines: strings_view(c.new_lines@),
        is_end_of_file: c.is_end_of_file,
    }
}

pub open spec fn chunks_view(v: Seq<UpdateChunk>) -> Seq<ChunkModel> {
    v.map_values(|c: UpdateChunk| chunk_view(c))
}

pub open spec fn hunk_view(h: Hunk) -> HunkModel {
    match h {
        Hunk::Add { path, contents } => HunkModel::Add { path: path@, contents: contents@ },
        Hunk::Delete { path } => HunkModel::Delete { path: path@ },
        Hunk::Update { path, move_path, chunks } => HunkModel::Update {
            path: path@,
            move_path: opt_string_view(move_path),
            chunks: chunks_view(chunks@),
        },
    }
}

pub open spec fn hunks_view(v: Seq<Hunk>) -> Seq<HunkModel> {
    v.map_values(|h: Hunk| hunk_view(h))
}

// ---------------------------------------------------------------------------
// Heredoc
// ---------------------------------------------------------------------------

pub open spec fn is_quote(c: char) -> bool {
    c == '\'' || c == '"'
}

/// Number of leading quote characters.
pub open spec fn lead_quotes(s: Seq<char>) -> nat
    decreases s.len(),
{
    if s.len() > 0 && is_quote(s[0]) {
        1 + lead_quotes(s.drop_first())
    } else {
        0
    }
}

/// Number of trailing quote characters.
pub open spec fn trail_quotes(s: Seq<char>) -> nat
    decreases s.len(),
{
    if s.len() > 0 && is_quote(s.last()) {
        1 + trail_quotes(s.drop_last())
    } else {
        0
    }
}

/// Index of the last `c` in `s`, or -1.
pub open spec fn last_index_of(s: Seq<char>, c: char) -> int
    decreases s.len(),
{
    if s.len() == 0 {
        -1
    } else if s.last() == c {
        s.len() - 1
    } else {
        last_index_of(s.drop_last(), c)
    }
}

/// The heredoc delimiter named by a first line such as `cat <<'EOF'`.
pub open spec fn heredoc_delimiter(first_line: Seq<char>) -> Option<Seq<char>> {
    let rest = trim(first_line);
    let rest2 = if starts_with(rest, "cat"@) {
        trim_start(rest.skip(3))
    } else {
        rest
    };
    if !starts_with(rest2, "<<"@) {
        None
    } else {
        let after = trim_start(rest2.skip(2));
        let unq = after.skip(lead_quotes(after) as int);
        let d = trim(unq.take(unq.len() - trail_quotes(unq)));
        if d.len() == 0 {
            None
        } else {
            Some(d)
        }
    }
}

/// The body of a heredoc-wrapped input: the lines between the first line
/// (`<<DELIM`, optionally after `cat` and with quotes) and a last line that
/// is the delimiter.
pub open spec fn heredoc_body(input: Seq<char>) -> Option<Seq<char>> {
    let t = trim(input);
    let f = index_of(t, '\n');
    if f < 0 {
        None
    } else {
        match heredoc_delimiter(t.take(f)) {
            None => None,
            Some(d) => {
                let body = t.skip(f + 1);
                let l = last_index_of(body, '\n');
                if l >= 0 && trim(body.skip(l + 1)) == d {
                    Some(body.take(l))
                } else {
                    None
                }
            },
        }
    }
}

/// The input without its heredoc wrapping, if it has one.
pub open spec fn strip_heredoc_spec(input: Seq<char>) -> Seq<char> {
    match heredoc_body(input) {
        Some(b) => b,
        None => input,
    }
}

proof fn lemma_lead_quotes(s: Seq<char>, i: int)
    requires
        0 <= i <= s.len(),
        forall|k: int| 0 <= k < i ==> is_quote(s[k]),
        i == s.len() || !is_quote(s[i]),
    ensures
        lead_quotes(s) == i,
    decreases s.len(),
{
    if i > 0 {
        lemma_lead_quotes(s.drop_first(), i - 1);
    }
}

proof fn lemma_trail_quotes(s: Seq<char>, i: int)
    requires
        0 <= i <= s.len(),
        forall|k: int| s.len() - i <= k < s.len() ==> is_quote(s[k]),
        i == s.len() || !is_quote(s[s.len() - i - 1]),
    ensures
        trail_quotes(s) == i,
    decreases s.len(),
{
    if i > 0 {
        lemma_trail_quotes(s.drop_last(), i - 1);
    }
}

proof fn lemma_last_index_of(s: Seq<char>, c: char, i: int)
    requires
        -1 <= i < s.len(),
        i >= 0 ==> s[i] == c,
        forall|k: int| i < k < s.len() ==> s[k] != c,
    ensures
        last_index_of(s, c) == i,
    decreases s.len(),
{
    if s.len() > 0 && s.last() != c {
        lemma_last_index_of(s.drop_last(), c, i);
    }
}

fn lead_quotes_exec(s: &[char]) -> (r: usize)
    ensures
        r == lead_quotes(s@),
        r <= s.len(),
{
    let mut i: usize = 0;
    while i < s.len() && (s[i] == '\'' || s[i] == '"')
        invariant
            i <= s.len(),
            forall|k: int| 0 <= k < i ==> is_quote(s@[k]),
        decreases s.len() - i,
    {
        i = i + 1;
    }
    proof {
        lemma_lead_quotes(s@, i as int);
    }
    i
}

fn trail_quotes_exec(s: &[char]) -> (r: usize)
    ensures
        r == trail_quotes(s@),
        r <= s.len(),
{
    let mut i: usize = 0;
    while i < s.len() && (s[s.len() - 1 - i] == '\'' || s[s.len() - 1 - i] == '"')
        invariant
            i <= s.len(),
            forall|k: int| s.len() - i <= k < s.len() ==> is_quote(s@[k]),
        decreases s.len() - i,
    {
        i = i + 1;
    }
    proof {
        lemma_trail_quotes(s@, i as int);
    }
    i
}

fn last_index_of_exec(s: &[char], c: char) -> (r: Option<usize>)
    ensures
        match r {
            Some(k) => k as int == last_index_of(s@, c) && k < s.len(),
            None => last_index_of(s@, c) == -1,
        },
{
    let mut i: usize = s.len();
    while i > 0
        invariant
            i <= s.len(),
            forall|k: int| i <= k < s.len() ==> s@[k] != c,
        decreases i,
    {
        if s[i - 1] == c {
            proof {
                lemma_last_index_of(s@, c, i - 1);
            }
            return Some(i - 1);
        }
        i = i - 1;
    }
    proof {
        lemma_last_index_of(s@, c, -1);
    }
    None
}

fn heredoc_delimiter_exec(first_line: &[char]) -> (r: Option<Vec<char>>)
    ensures
        match r {
            None => heredoc_delimiter(first_line@) is None,
            Some(d) => heredoc_delimiter(first_line@) == Some(d@),
        },
{
    proof {
        reveal_strlit("cat");
        reveal_strlit("<<");
    }
    let rest = trim_vec(first_line);
    let rest2 = if starts_with_exec(&rest, &chars_of("cat")) {
        let t = slice_vec(&rest, 3, rest.len());
        assert(rest@.subrange(3, rest@.len() as int) =~= rest@.skip(3));
        trim_start_vec(&t)
    } else {
        rest
    };
    if !starts_with_exec(&rest2, &chars_of("<<")) {
        return None;
    }
    let t2 = slice_vec(&rest2, 2, rest2.len());
    assert(rest2@.subrange(2, rest2@.len() as int) =~= rest2@.skip(2));
    let after = trim_start_vec(&t2);
    let lq = lead_quotes_exec(&after);
    let unq = slice_vec(&after, lq, after.len());
    assert(after@.subrange(lq as int, after@.len() as int) =~= after@.skip(lq as int));
    let tq = trail_quotes_exec(&unq);
    let cut = slice_vec(&unq, 0, unq.len() - tq);
    assert(unq@.subrange(0, unq@.len() - tq) =~= unq@.take(unq@.len() - tq));
    let d = trim_vec(&cut);
    if d.len() == 0 {
        return None;
    }
    Some(d)
}

/// Removes a heredoc wrapping (`cat <<'EOF'` ... `EOF`) around the input;
/// input without one is returned as it is.
pub fn strip_heredoc(input: &str) -> (r: String)
    ensures
        r@ == strip_heredoc_spec(input@),
{
    let cs = chars_of(input);
    let t = trim_vec(&cs);
    let f = match index_of_exec(&t, '\n') {
        None => {
            return input.to_owned();
        },
        Some(f) => f,
    };
    proof {
        lemma_index_of_props(t@, '\n');
    }
    assert(f < t.len());
    let first_line = slice_vec(&t, 0, f);
    assert(t@.subrange(0, f as int) =~= t@.take(f as int));
    let d = match heredoc_delimiter_exec(&first_line) {
        None => {
            return input.to_owned();
        },
        Some(d) => d,
    };
    let body = slice_vec(&t, f + 1, t.len());
    assert(t@.subrange(f + 1, t@.len() as int) =~= t@.skip(f + 1));
    match last_index_of_exec(&body, '\n') {
        None => input.to_owned(),
        Some(l) => {
            let last = slice_vec(&body, l + 1, body.len());
            assert(body@.subrange(l + 1, body@.len() as int) =~= body@.skip(l + 1));
            let lt = trim_vec(&last);
            if chars_eq(&lt, &d) {
                let b = slice_vec(&body, 0, l);
                assert(body@.subrange(0, l as int) =~= body@.take(l as int));
                string_of(&b)
            } else {
                input.to_owned()
            }
        },
    }
}

// ---------------------------------------------------------------------------
// Sections
// ---------------------------------------------------------------------------

/// Content of an added file: the `+` lines from `i` up to the next `***`
/// line or `e`, without their `+`, joined by `'\n'`; and where parsing
/// stops.
pub open spec fn add_body(ls: Seq<Seq<char>>, i: int, e: int, acc: Seq<char>) -> (Seq<char>, int)
    decreases e - i,
{
    if i < 0 || i >= e || i >= ls.len() || starts_with(ls[i], "***"@) {
        (acc, i)
    } else if starts_with(ls[i], "+"@) {
        let stripped = ls[i].skip(1);
        let acc2 = if acc.len() > 0 { acc.push('\n') + stripped } else { acc + stripped };
        add_body(ls, i + 1, e, acc2)
    } else {
        add_body(ls, i + 1, e, acc)
    }
}

/// The lines of a chunk from `i` up to the next `@@` or `***` line or `e`:
/// old lines (kept and removed) and new lines (kept and added); and where
/// parsing stops.
pub open spec fn chunk_body(ls: Seq<Seq<char>>, i: int, e: int, old: Seq<Seq<char>>, new: Seq<Seq<char>>) -> (Seq<Seq<char>>, Seq<Seq<char>>, int)
    decreases e - i,
{
    if i < 0 || i >= e || i >= ls.len() || starts_with(ls[i], "@@"@) || starts_with(ls[i], "***"@) {
        (old, new, i)
    } else {
        let l = ls[i];
        if starts_with(l, " "@) {
            chunk_body(ls, i + 1, e, old.push(l.skip(1)), new.push(l.skip(1)))
        } else if starts_with(l, "-"@) {
            chunk_body(ls, i + 1, e, old.push(l.skip(1)), new)
        } else if starts_with(l, "+"@) {
            chunk_body(ls, i + 1, e, old, new.push(l.skip(1)))
        } else {
            chunk_body(ls, i + 1, e, old, new)
        }
    }
}

/// The context of an `@@` line: its trimmed text after `@@`, if not empty.
pub open spec fn chunk_context(l: Seq<char>) -> Option<Seq<char>> {
    let c = trim(l.skip(2));
    if c.len() == 0 {
        None
    } else {
        Some(c)
    }
}

pub proof fn lemma_chunk_body_bounds(ls: Seq<Seq<char>>, i: int, e: int, old: Seq<Seq<char>>, new: Seq<Seq<char>>)
    ensures
        chunk_body(ls, i, e, old, new).2 >= i,
        0 <= i <= e ==> chunk_body(ls, i, e, old, new).2 <= e,
    decreases e - i,
{
    if !(i < 0 || i >= e || i >= ls.len() || starts_with(ls[i], "@@"@) || starts_with(ls[i], "***"@)) {
        let l = ls[i];
        if starts_with(l, " "@) {
            lemma_chunk_body_bounds(ls, i + 1, e, old.push(l.skip(1)), new.push(l.skip(1)));
        } else if starts_with(l, "-"@) {
            lemma_chunk_body_bounds(ls, i + 1, e, old.push(l.skip(1)), new);
        } else if starts_with(l, "+"@) {
            lemma_chunk_body_bounds(ls, i + 1, e, old, new.push(l.skip(1)));
        } else {
            lemma_chunk_body_bounds(ls, i + 1, e, old, new);
        }
    }
}

/// The chunks of an update section from `i` up to the next `***` line or
/// `e`; lines before an `@@` line are skipped.
pub open spec fn chunks_from(ls: Seq<Seq<char>>, i: int, e: int, acc: Seq<ChunkModel>) -> (Seq<ChunkModel>, int)
    decreases e - i,
{
    if i < 0 || i >= e || i >= ls.len() || starts_with(ls[i], "***"@) {
        (acc, i)
    } else if starts_with(ls[i], "@@"@) {
        let b = chunk_body(ls, i + 1, e, seq![], seq![]);
        let chunk = ChunkModel {
            context: chunk_context(ls[i]),
            old_lines: b.0,
            new_lines: b.1,
            is_end_of_file: false,
        };
        proof {
            lemma_chunk_body_bounds(ls, i + 1, e, seq![], seq![]);
        }
        chunks_from(ls, b.2, e, acc.push(chunk))
    } else {
        chunks_from(ls, i + 1, e, acc)
    }
}

pub proof fn lemma_add_body_bounds(ls: Seq<Seq<char>>, i: int, e: int, acc: Seq<char>)
    ensures
        add_body(ls, i, e, acc).1 >= i,
        0 <= i <= e ==> add_body(ls, i, e, acc).1 <= e,
    decreases e - i,
{
    if !(i < 0 || i >= e || i >= ls.len() || starts_with(ls[i], "***"@)) {
        if starts_with(ls[i], "+"@) {
            let stripped = ls[i].skip(1);
            let acc2 = if acc.len() > 0 { acc.push('\n') + stripped } else { acc + stripped };
            lemma_add_body_bounds(ls, i + 1, e, acc2);
        } else {
            lemma_add_body_bounds(ls, i + 1, e, acc);
        }
    }
}

pub proof fn lemma_chunks_from_bounds(ls: Seq<Seq<char>>, i: int, e: int, acc: Seq<ChunkModel>)
    ensures
        chunks_from(ls, i, e, acc).1 >= i,
        0 <= i <= e ==> chunks_from(ls, i, e, acc).1 <= e,
    decreases e - i,
{
    if !(i < 0 || i >= e || i >= ls.len() || starts_with(ls[i], "***"@)) {
        if starts_with(ls[i], "@@"@) {
            let b = chunk_body(ls, i + 1, e, seq![], seq![]);
            let chunk = ChunkModel {
                context: chunk_context(ls[i]),
                old_lines: b.0,
                new_lines: b.1,
                is_end_of_file: false,
            };
            lemma_chunk_body_bounds(ls, i + 1, e, seq![], seq![]);
            lemma_chunks_from_bounds(ls, b.2, e, acc.push(chunk));
        } else {
            lemma_chunks_from_bounds(ls, i + 1, e, acc);
        }
    }
}

/// A trimmed path after a header prefix of `n` characters.
pub open spec fn header_path(l: Seq<char>, n: int) -> Seq<char> {
    trim(l.skip(n))
}

/// The hunks from line `i` up to `e`, appended to `acc`, or the first
/// header error. Lines that start no section are skipped.
pub open spec fn hunks_from(ls: Seq<Seq<char>>, i: int, e: int, acc: Seq<HunkModel>) -> Result<Seq<HunkModel>, Seq<char>>
    decreases e - i,
{
    if i < 0 || i >= e || i >= ls.len() {
        Ok(acc)
    } else {
        let l = ls[i];
        if starts_with(l, "*** Add File:"@) {
            let path = header_path(l, 13);
            if path.len() == 0 {
                Err("Add File header has empty path"@)
            } else {
                let b = add_body(ls, i + 1, e, seq![]);
                proof {
                    lemma_add_body_bounds(ls, i + 1, e, seq![]);
                }
                hunks_from(ls, b.1, e, acc.push(HunkModel::Add { path, contents: b.0 }))
            }
        } else if starts_with(l, "*** Delete File:"@) {
            let path = header_path(l, 16);
            if path.len() == 0 {
                Err("Delete File header has empty path"@)
            } else {
                hunks_from(ls, i + 1, e, acc.push(HunkModel::Delete { path }))
            }
        } else if starts_with(l, "*** Update File:"@) {
            let path = header_path(l, 16);
            if path.len() == 0 {
                Err("Update File header has empty path"@)
            } else {
                let has_move = i + 1 < e && i + 1 < ls.len() && starts_with(ls[i + 1], "*** Move to:"@);
                let move_path = if has_move { Some(header_path(ls[i + 1], 12)) } else { None };
                let j = if has_move { i + 2 } else { i + 1 };
                let c = chunks_from(ls, j, e, seq![]);
                proof {
                    lemma_chunks_from_bounds(ls, j, e, seq![]);
                }
                hunks_from(ls, c.1, e, acc.push(HunkModel::Update { path, move_path, chunks: c.0 }))
            }
        } else {
            hunks_from(ls, i + 1, e, acc)
        }
    }
}

/// Error for a patch without its markers.
pub open spec fn missing_markers_msg() -> Seq<char> {
    "Invalid patch format: missing Begin/End markers"@
}

/// The lines of a patch: line endings normalized, trimmed, heredoc removed,
/// split on `'\n'`.
pub open spec fn patch_lines(text: Seq<char>) -> Seq<Seq<char>> {
    split_on(strip_heredoc_spec(trim(normalize_line_endings_spec(text))), '\n')
}

/// A parsed patch: the hunks between the first `*** Begin Patch` line and
/// the first `*** End Patch` line (compared trimmed), which must come after
/// it.
pub open spec fn parse_patch_spec(text: Seq<char>) -> Result<Seq<HunkModel>, Seq<char>> {
    let ls = patch_lines(text);
    let b = first_trimmed(ls, "*** Begin Patch"@, 0);
    let e = first_trimmed(ls, "*** End Patch"@, 0);
    if b < 0 || e < 0 || b >= e {
        Err(missing_markers_msg())
    } else {
        hunks_from(ls, b + 1, e, seq![])
    }
}

// ---------------------------------------------------------------------------
// Executable parsing
// ---------------------------------------------------------------------------

/// Copies of character vectors as `String`s.
fn to_strings(v: &Vec<Vec<char>>) -> (r: Vec<String>)
    ensures
        strings_view(r@) == views(v@),
{
    let mut out: Vec<String> = Vec::new();
    let mut i: usize = 0;
    while i < v.len()
        invariant
            i <= v.len(),
            strings_view(out@) == views(v@).take(i as int),
        decreases v.len() - i,
    {
        let s = string_of(&v[i]);
        proof {
            assert(strings_view(out@.push(s)) =~= strings_view(out@).push(s@));
            assert(views(v@).take(i + 1) =~= views(v@).take(i as int).push(v@[i as int]@));
        }
        out.push(s);
        i = i + 1;
    }
    assert(views(v@).take(v@.len() as int) =~= views(v@));
    out
}

fn add_body_exec(ls: &Vec<Vec<char>>, i0: usize, e: usize) -> (r: (Vec<char>, usize))
    requires
        e <= ls.len(),
    ensures
        (r.0@, r.1 as int) == add_body(views(ls@), i0 as int, e as int, seq![]),
{
    proof {
        reveal_strlit("***");
        reveal_strlit("+");
    }
    let ghost lv = views(ls@);
    let mut acc: Vec<char> = Vec::new();
    let mut i = i0;
    let star = chars_of("***");
    let plus = chars_of("+");
    loop
        invariant
            e <= ls.len(),
            lv == views(ls@),
            star@ == "***"@,
            plus@ == "+"@,
            add_body(lv, i0 as int, e as int, seq![]) == add_body(lv, i as int, e as int, acc@),
        decreases e - i,
    {
        proof {
            reveal_strlit("***");
            reveal_strlit("+");
        }
        if i >= e || starts_with_exec(&ls[i], &star) {
            return (acc, i);
        }
        assert(lv[i as int] == ls@[i as int]@);
        if starts_with_exec(&ls[i], &plus) {
            if acc.len() > 0 {
                acc.push('\n');
            }
            let stripped = slice_vec(&ls[i], 1, ls[i].len());
            assert(ls@[i as int]@.subrange(1, ls@[i as int]@.len() as int) =~= ls@[i as int]@.skip(1));
            crate::text::append_chars(&mut acc, &stripped);
        }
        i = i + 1;
    }
}

fn chunk_body_exec(ls: &Vec<Vec<char>>, i0: usize, e: usize) -> (r: (Vec<Vec<char>>, Vec<Vec<char>>, usize))
    requires
        e <= ls.len(),
    ensures
        (views(r.0@), views(r.1@), r.2 as int) == chunk_body(views(ls@), i0 as int, e as int, seq![], seq![]),
{
    proof {
        reveal_strlit("***");
        reveal_strlit("@@");
        reveal_strlit(" ");
        reveal_strlit("-");
        reveal_strlit("+");
    }
    let ghost lv = views(ls@);
    let mut old: Vec<Vec<char>> = Vec::new();
    let mut new: Vec<Vec<char>> = Vec::new();
    let mut i = i0;
    let star = chars_of("***");
    let at = chars_of("@@");
    let sp = chars_of(" ");
    let minus = chars_of("-");
    let plus = chars_of("+");
    assert(views(old@) =~= Seq::<Seq<char>>::empty());
    loop
        invariant
            e <= ls.len(),
            lv == views(ls@),
            star@ == "***"@,
            at@ == "@@"@,
            sp@ == " "@,
            minus@ == "-"@,
            plus@ == "+"@,
            chunk_body(lv, i0 as int, e as int, seq![], seq![]) == chunk_body(lv, i as int, e as int, views(old@), views(new@)),
        decreases e - i,
    {
        proof {
            reveal_strlit("***");
            reveal_strlit("@@");
            reveal_strlit(" ");
            reveal_strlit("-");
            reveal_strlit("+");
        }
        if i >= e || starts_with_exec(&ls[i], &at) || starts_with_exec(&ls[i], &star) {
            return (old, new, i);
        }
        assert(lv[i as int] == ls@[i as int]@);
        let l = &ls[i];
        let rest = if l.len() > 0 { slice_vec(l, 1, l.len()) } else { Vec::new() };
        proof {
            if l@.len() > 0 {
                assert(l@.subrange(1, l@.len() as int) =~= l@.skip(1));
            }
        }
        if starts_with_exec(l, &sp) {
            let r2 = slice_vec(&rest, 0, rest.len());
            assert(rest@.subrange(0, rest@.len() as int) =~= rest@);
            proof {
                lemma_views_push(old@, rest);
                lemma_views_push(new@, r2);
            }
            old.push(rest);
            new.push(r2);
        } else if starts_with_exec(l, &minus) {
            proof {
                lemma_views_push(old@, rest);
            }
            old.push(rest);
        } else if starts_with_exec(l, &plus) {
            proof {
                lemma_views_push(new@, rest);
            }
            new.push(rest);
        }
        i = i + 1;
    }
}

fn chunk_context_exec(l: &Vec<char>) -> (r: Option<String>)
    requires
        l@.len() >= 2,
    ensures
        opt_string_view(r) == chunk_context(l@),
{
    let rest = slice_vec(l, 2, l.len());
    assert(l@.subrange(2, l@.len() as int) =~= l@.skip(2));
    let c = trim_vec(&rest);
    if c.len() == 0 {
        None
    } else {
        Some(string_of(&c))
    }
}

fn chunks_exec(ls: &Vec<Vec<char>>, i0: usize, e: usize) -> (r: (Vec<UpdateChunk>, usize))
    requires
        e <= ls.len(),
    ensures
        (chunks_view(r.0@), r.1 as int) == chunks_from(views(ls@), i0 as int, e as int, seq![]),
{
    proof {
        reveal_strlit("***");
        reveal_strlit("@@");
    }
    let ghost lv = views(ls@);
    let mut acc: Vec<UpdateChunk> = Vec::new();
    let mut i = i0;
    let star = chars_of("***");
    let at = chars_of("@@");
    assert(chunks_view(acc@) =~= Seq::<ChunkModel>::empty());
    loop
        invariant
            e <= ls.len(),
            lv == views(ls@),
            star@ == "***"@,
            at@ == "@@"@,
            chunks_from(lv, i0 as int, e as int, seq![]) == chunks_from(lv, i as int, e as int, chunks_view(acc@)),
        decreases e - i,
    {
        proof {
            reveal_strlit("***");
            reveal_strlit("@@");
        }
        if i >= e || starts_with_exec(&ls[i], &star) {
            return (acc, i);
        }
        assert(lv[i as int] == ls@[i as int]@);
        if starts_with_exec(&ls[i], &at) {
            let context = chunk_context_exec(&ls[i]);
            let (old, new, j) = chunk_body_exec(ls, i + 1, e);
            proof {
                lemma_chunk_body_bounds(lv, i + 1, e as int, seq![], seq![]);
            }
            let chunk = UpdateChunk {
                context,
                old_lines: to_strings(&old),
                new_lines: to_strings(&new),
                is_end_of_file: false,
            };
            proof {
                assert(chunks_view(acc@.push(chunk)) =~= chunks_view(acc@).push(chunk_view(chunk)));
            }
            acc.push(chunk);
            i = j;
        } else {
            i = i + 1;
        }
    }
}

fn header_path_exec(l: &Vec<char>, n: usize) -> (r: Vec<char>)
    requires
        n <= l.len(),
    ensures
        r@ == header_path(l@, n as int),
{
    let rest = slice_vec(l, n, l.len());
    assert(l@.subrange(n as int, l@.len() as int) =~= l@.skip(n as int));
    trim_vec(&rest)
}

/// Index of the first line whose trimmed text is `t`.
fn first_trimmed_exec(ls: &Vec<Vec<char>>, t: &[char]) -> (r: Option<usize>)
    ensures
        match r {
            Some(k) => k as int == first_trimmed(views(ls@), t@, 0) && k < ls.len(),
            None => first_trimmed(views(ls@), t@, 0) == -1,
        },
{
    let ghost lv = views(ls@);
    let mut i: usize = 0;
    while i < ls.len()
        invariant
            i <= ls.len(),
            lv == views(ls@),
            first_trimmed(lv, t@, 0) == first_trimmed(lv, t@, i as int),
        decreases ls.len() - i,
    {
        let tr = trim_vec(&ls[i]);
        assert(lv[i as int] == ls@[i as int]@);
        if chars_eq(&tr, t) {
            return Some(i);
        }
        i = i + 1;
    }
    None
}

/// Parses a patch into its hunks.
pub fn parse_patch(patch_text: &str) -> (r: Result<Vec<Hunk>, String>)
    ensures
        match r {
            Ok(hs) => parse_patch_spec(patch_text@) == Ok::<Seq<HunkModel>, Seq<char>>(hunks_view(hs@)),
            Err(msg) => parse_patch_spec(patch_text@) == Err::<Seq<HunkModel>, Seq<char>>(msg@),
        },
{
    proof {
        reveal_strlit("*** Add File:");
        reveal_strlit("*** Delete File:");
        reveal_strlit("*** Update File:");
        reveal_strlit("*** Move to:");
    }
    let norm = normalize_line_endings(patch_text);
    let nc = chars_of(norm.as_str());
    let trimmed = string_of(&trim_vec(&nc));
    let cleaned = strip_heredoc(trimmed.as_str());
    let cc = chars_of(cleaned.as_str());
    let ls = split_vec(&cc, '\n');
    let ghost lv = views(ls@);
    assert(lv == patch_lines(patch_text@));
    let b = first_trimmed_exec(&ls, &chars_of("*** Begin Patch"));
    let e = first_trimmed_exec(&ls, &chars_of("*** End Patch"));
    let (b, e) = match (b, e) {
        (Some(b), Some(e)) => {
            if b < e {
                (b, e)
            } else {
                return Err("Invalid patch format: missing Begin/End markers".to_owned());
            }
        },
        _ => {
            return Err("Invalid patch format: missing Begin/End markers".to_owned());
        },
    };
    let add = chars_of("*** Add File:");
    let del = chars_of("*** Delete File:");
    let upd = chars_of("*** Update File:");
    let mv = chars_of("*** Move to:");
    let mut hunks: Vec<Hunk> = Vec::new();
    let mut i = b + 1;
    assert(hunks_view(hunks@) =~= Seq::<HunkModel>::empty());
    loop
        invariant
            e < ls.len(),
            lv == views(ls@),
            add@ == "*** Add File:"@,
            del@ == "*** Delete File:"@,
            upd@ == "*** Update File:"@,
            mv@ == "*** Move to:"@,
            parse_patch_spec(patch_text@) == hunks_from(lv, i as int, e as int, hunks_view(hunks@)),
        decreases e - i,
    {
        proof {
            reveal_strlit("*** Add File:");
            reveal_strlit("*** Delete File:");
            reveal_strlit("*** Update File:");
            reveal_strlit("*** Move to:");
        }
        if i >= e {
            return Ok(hunks);
        }
        assert(lv[i as int] == ls@[i as int]@);
        let l = &ls[i];
        if starts_with_exec(l, &add) {
            let path = header_path_exec(l, 13);
            if path.len() == 0 {
                return Err("Add File header has empty path".to_owned());
            }
            let (contents, j) = add_body_exec(&ls, i + 1, e);
            proof {
                lemma_add_body_bounds(lv, i + 1, e as int, seq![]);
            }
            let h = Hunk::Add { path: string_of(&path), contents: string_of(&contents) };
            proof {
                assert(hunks_view(hunks@.push(h)) =~= hunks_view(hunks@).push(hunk_view(h)));
            }
            hunks.push(h);
            i = j;
        } else if starts_with_exec(l, &del) {
            let path = header_path_exec(l, 16);
            if path.len() == 0 {
                return Err("Delete File header has empty path".to_owned());
            }
            let h = Hunk::Delete { path: string_of(&path) };
            proof {
                assert(hunks_view(hunks@.push(h)) =~= hunks_view(hunks@).push(hunk_view(h)));
            }
            hunks.push(h);
            i = i + 1;
        } else if starts_with_exec(l, &upd) {
            let path = header_path_exec(l, 16);
            if path.len() == 0 {
                return Err("Update File header has empty path".to_owned());
            }
            let mut j = i + 1;
            let mut move_path: Option<String> = None;
            if j < e && starts_with_exec(&ls[j], &mv) {
                assert(lv[j as int] == ls@[j as int]@);
                let mp = header_path_exec(&ls[j], 12);
                move_path = Some(string_of(&mp));
                j = j + 1;
            }
            let (chunks, k) = chunks_exec(&ls, j, e);
            proof {
                lemma_chunks_from_bounds(lv, j as int, e as int, seq![]);
            }
            let h = Hunk::Update { path: string_of(&path), move_path, chunks };
            proof {
                assert(hunks_view(hunks@.push(h)) =~= hunks_view(hunks@).push(hunk_view(h)));
            }
            hunks.push(h);
            i = k;
        } else {
            i = i + 1;
        }
    }
}

/// A patch written with CR LF line endings parses as the same patch
/// written with line feeds: the same hunks, or the same error.
pub proof fn lemma_parse_patch_crlf(p: Seq<char>)
    requires
        !p.contains('\r'),
    ensures
        parse_patch_spec(crate::text::replaced_all(p, "\n"@, "\r\n"@)) == parse_patch_spec(p),
{
    reveal_strlit("\n");
    reveal_strlit("\r\n");
    reveal_strlit("\r");
    assert("\n"@ =~= seq!['\n']);
    assert("\r\n"@ =~= seq!['\r', '\n']);
    assert("\r"@ =~= seq!['\r']);
    let q = crate::text::replaced_all(p, "\n"@, "\r\n"@);
    crate::text::lemma_replace_lf_by_crlf(p, 0);
    assert(p.skip(0) =~= p);
    assert(q == crate::text::crlf_form(p));
    assert(q.skip(0) =~= q);
    crate::text::lemma_replace_crlf_back(q, 0, p);
    assert(crate::text::replaced_all(q, "\r\n"@, "\n"@) == p);
    crate::text::lemma_no_cr_absent(p, "\r"@);
    crate::text::lemma_replace_absent(p, "\r"@, "\n"@);
    crate::text::lemma_no_cr_absent(p, "\r\n"@);
    crate::text::lemma_replace_absent(p, "\r\n"@, "\n"@);
    assert(crate::edit::normalize_line_endings_spec(q) == p);
    assert(crate::edit::normalize_line_endings_spec(p) == p);
}

/// A context line (` `) or a removed line (`-`).
pub open spec fn is_old_side(l: Seq<char>) -> bool {
    starts_with(l, " "@) || starts_with(l, "-"@)
}

/// A context line (` `) or an added line (`+`).
pub open spec fn is_new_side(l: Seq<char>) -> bool {
    starts_with(l, " "@) || starts_with(l, "+"@)
}

/// What a chunk's lines read: the body of the chunk from `i` up to where
/// parsing stops gives as old lines the context and removed lines, and as
/// new lines the context and added lines, each without its marker and in
/// order; so a context line lands on both sides.
pub proof fn lemma_chunk_body_sides(ls: Seq<Seq<char>>, i: int, e: int, old: Seq<Seq<char>>, new: Seq<Seq<char>>)
    requires
        0 <= i <= ls.len(),
    ensures
        ({
            let (o, n, stop) = chunk_body(ls, i, e, old, new);
            let body = ls.subrange(i, stop);
            &&& i <= stop <= ls.len()
            &&& o == old + body.filter(|l: Seq<char>| is_old_side(l)).map_values(|l: Seq<char>| l.skip(1))
            &&& n == new + body.filter(|l: Seq<char>| is_new_side(l)).map_values(|l: Seq<char>| l.skip(1))
        }),
    decreases e - i,
{
    reveal(Seq::filter);
    reveal_strlit(" ");
    reveal_strlit("-");
    reveal_strlit("+");
    let fo = |l: Seq<char>| is_old_side(l);
    let fnw = |l: Seq<char>| is_new_side(l);
    let sk = |l: Seq<char>| l.skip(1);
    if i >= e || i >= ls.len() || starts_with(ls[i], "@@"@) || starts_with(ls[i], "***"@) {
        let body = ls.subrange(i, i);
        assert(body =~= Seq::<Seq<char>>::empty());
        assert(body.filter(fo) =~= Seq::<Seq<char>>::empty());
        assert(body.filter(fnw) =~= Seq::<Seq<char>>::empty());
        assert(old + body.filter(fo).map_values(sk) =~= old);
        assert(new + body.filter(fnw).map_values(sk) =~= new);
    } else {
        let l = ls[i];
        let (o2, n2) = if starts_with(l, " "@) {
            (old.push(l.skip(1)), new.push(l.skip(1)))
        } else if starts_with(l, "-"@) {
            (old.push(l.skip(1)), new)
        } else if starts_with(l, "+"@) {
            (old, new.push(l.skip(1)))
        } else {
            (old, new)
        };
        assert(chunk_body(ls, i, e, old, new) == chunk_body(ls, i + 1, e, o2, n2));
        lemma_chunk_body_sides(ls, i + 1, e, o2, n2);
        lemma_chunk_body_bounds(ls, i + 1, e, o2, n2);
        let stop = chunk_body(ls, i + 1, e, o2, n2).2;
        let rest = ls.subrange(i + 1, stop);
        let body = ls.subrange(i, stop);
        assert(body =~= seq![l] + rest);
        Seq::filter_distributes_over_add(seq![l], rest, fo);
        Seq::filter_distributes_over_add(seq![l], rest, fnw);
        assert(seq![l].drop_last() =~= Seq::<Seq<char>>::empty());
        assert(Seq::<Seq<char>>::empty().filter(fo) =~= Seq::<Seq<char>>::empty());
        assert(Seq::<Seq<char>>::empty().filter(fnw) =~= Seq::<Seq<char>>::empty());
        let lo = seq![l].filter(fo);
        let ln = seq![l].filter(fnw);
        assert(seq![l].last() == l);
        if is_old_side(l) {
            assert(lo =~= seq![l]);
        } else {
            assert(lo =~= Seq::<Seq<char>>::empty());
        }
        if is_new_side(l) {
            assert(ln =~= seq![l]);
        } else {
            assert(ln =~= Seq::<Seq<char>>::empty());
        }
        assert(body.filter(fo) == lo + rest.filter(fo));
        assert(body.filter(fnw) == ln + rest.filter(fnw));
        assert((lo + rest.filter(fo)).map_values(sk) =~= lo.map_values(sk) + rest.filter(fo).map_values(sk));
        assert((ln + rest.filter(fnw)).map_values(sk) =~= ln.map_values(sk) + rest.filter(fnw).map_values(sk));
        if starts_with(l, " "@) {
            assert(is_new_side(l) && is_old_side(l));
            assert(n2 == new.push(l.skip(1)));
        } else if starts_with(l, "-"@) {
            assert(!starts_with(l, "+"@)) by {
                assert("-"@ =~= seq!['-']);
                assert("+"@ =~= seq!['+']);
                assert(l.take(1) == "-"@);
                assert(l.take(1)[0] == '-');
            }
            assert(!is_new_side(l));
            assert(n2 == new);
        } else if starts_with(l, "+"@) {
            assert(is_new_side(l));
            assert(n2 == new.push(l.skip(1)));
        } else {
            assert(!is_new_side(l));
            assert(n2 == new);
        }
        assert(o2 + rest.filter(fo).map_values(sk) =~= old + body.filter(fo).map_values(sk));
        assert(n2 + rest.filter(fnw).map_values(sk) =~= new + body.filter(fnw).map_values(sk));
    }
}

} // verus!
