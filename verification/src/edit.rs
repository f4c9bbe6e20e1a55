//! The edit tool's logic: a single find-and-replace through the chain of
//! matching strategies, and the sequential application of several edits.
use vstd::prelude::*;
use crate::edit_strategies::{all_strategies, strategy_at, strategy_count, strategy_outcome, Strategy};
use crate::text::{append_chars, append_str, chars_eq, chars_of, count_matches, count_matches_exec, decimal, decimal_vec, lines_of, lines_vec, replace_all_exec, replaced_all, string_of, utf8_len, utf8_width, slice_vec, char_width};

verus! {

// ---------------------------------------------------------------------------
// Line endings
// ---------------------------------------------------------------------------

/// CRLF and lone CR turned into LF.
pub open spec fn normalize_line_endings_spec(text: Seq<char>) -> Seq<char> {
    replaced_all(replaced_all(text, "\r\n"@, "\n"@), "\r"@, "\n"@)
}

/// Normalizes CRLF and CR line endings to LF.
pub fn normalize_line_endings(text: &str) -> (r: String)
    ensures
        r@ == normalize_line_endings_spec(text@),
{
    let t = chars_of(text);
    let a = replace_all_exec(&t, &chars_of("\r\n"), &chars_of("\n"));
    let b = replace_all_exec(&a, &chars_of("\r"), &chars_of("\n"));
    string_of(&b)
}

/// Normalized text has no carriage return left, and normalizing it again
/// changes nothing.
pub proof fn lemma_normalized_line_endings(text: Seq<char>)
    ensures
        !normalize_line_endings_spec(text).contains('\r'),
        normalize_line_endings_spec(normalize_line_endings_spec(text)) == normalize_line_endings_spec(text),
{
    reveal_strlit("\r\n");
    reveal_strlit("\r");
    reveal_strlit("\n");
    let a = replaced_all(text, "\r\n"@, "\n"@);
    let n = normalize_line_endings_spec(text);
    assert("\r"@ =~= seq!['\r']);
    assert(!"\n"@.contains('\r')) by {
        assert("\n"@ =~= seq!['\n']);
    }
    crate::text::lemma_replace_char_gone(a, '\r', "\n"@, 0);
    assert(!crate::text::contains(n, "\r\n"@)) by {
        if crate::text::contains(n, "\r\n"@) {
            let i = choose|i: int| crate::text::occurs_at(n, "\r\n"@, i);
            assert(n.subrange(i, i + 2)[0] == '\r');
            assert(n[i] == '\r');
        }
    }
    crate::text::lemma_replace_absent(n, "\r\n"@, "\n"@);
    assert(!crate::text::contains(n, "\r"@)) by {
        if crate::text::contains(n, "\r"@) {
            let i = choose|i: int| crate::text::occurs_at(n, "\r"@, i);
            assert(n.subrange(i, i + 1)[0] == '\r');
            assert(n[i] == '\r');
        }
    }
    crate::text::lemma_replace_absent(n, "\r"@, "\n"@);
}

// ---------------------------------------------------------------------------
// A single edit
// ---------------------------------------------------------------------------

/// Error when the old and new strings are the same.
pub open spec fn identical_msg() -> Seq<char> {
    "oldString and newString are identical"@
}

/// Error when several exact matches remain ambiguous.
pub open spec fn multiple_msg() -> Seq<char> {
    "Found multiple matches for oldString. Provide more surrounding lines in oldString to identify the correct match, or use replaceAll."@
}

/// Error when no strategy matches.
pub open spec fn not_found_msg() -> Seq<char> {
    "oldString not found in file content"@
}

/// Result of an edit: the new content and the number of replacements, or an
/// error message.
pub type EditOutcome = Result<(Seq<char>, nat), Seq<char>>;

/// The chain from the `k`-th strategy on: the first strategy that matches
/// decides; `None` where a strategy tried would fail on a slice.
pub open spec fn chain_from(content: Seq<char>, old: Seq<char>, new: Seq<char>, replace_all: bool, k: nat) -> Option<EditOutcome>
    decreases strategy_count() - k,
{
    if k >= strategy_count() {
        if count_matches(content, old) > 1 && !replace_all {
            Some(Err(multiple_msg()))
        } else {
            Some(Err(not_found_msg()))
        }
    } else {
        match strategy_outcome(strategy_at(k), content, old, new, replace_all) {
            None => None,
            Some(Some(o)) => Some(Ok(o)),
            Some(None) => chain_from(content, old, new, replace_all, k + 1),
        }
    }
}

/// A single edit: refused when old and new are the same, else the strategy
/// chain.
pub open spec fn edit_spec(content: Seq<char>, old: Seq<char>, new: Seq<char>, replace_all: bool) -> Option<EditOutcome> {
    if old == new {
        Some(Err(identical_msg()))
    } else {
        chain_from(content, old, new, replace_all, 0)
    }
}

/// View of an executable edit result.
pub open spec fn edit_result_view(r: Result<(String, usize), String>) -> EditOutcome {
    match r {
        Ok((c, n)) => Ok((c@, n as nat)),
        Err(e) => Err(e@),
    }
}

/// Applies one find-and-replace, or `None` on the inputs on which a
/// strategy of the chain would fail on a slice.
pub fn try_apply_edit(content: &str, old_string: &str, new_string: &str, replace_all: bool) -> (r: Option<Result<(String, usize), String>>)
    requires
        content@.len() < usize::MAX,
    ensures
        match r {
            None => edit_spec(content@, old_string@, new_string@, replace_all) is None,
            Some(x) => edit_spec(content@, old_string@, new_string@, replace_all) == Some(edit_result_view(x)),
        },
{
    let c = chars_of(content);
    let o = chars_of(old_string);
    let n = chars_of(new_string);
    if chars_eq(&o, &n) {
        return Some(Err("oldString and newString are identical".to_owned()));
    }
    let strategies = all_strategies();
    let mut k: usize = 0;
    while k < strategies.len()
        invariant
            k <= strategies.len(),
            strategies.len() == strategy_count(),
            forall|j: int| 0 <= j < strategies.len() ==> strategies[j] == strategy_at(j as nat),
            c@ == content@,
            o@ == old_string@,
            n@ == new_string@,
            c@.len() < usize::MAX,
            old_string@ != new_string@,
            chain_from(c@, o@, n@, replace_all, 0) == chain_from(c@, o@, n@, replace_all, k as nat),
        decreases strategies.len() - k,
    {
        let s: Strategy = strategies[k];
        match s.run(&c, &o, &n, replace_all) {
            None => {
                return None;
            },
            Some(Some((v, cnt))) => {
                return Some(Ok((string_of(&v), cnt)));
            },
            Some(None) => {},
        }
        k = k + 1;
    }
    let exact = count_matches_exec(&c, &o);
    if exact > 1 && !replace_all {
        return Some(Err(
            "Found multiple matches for oldString. Provide more surrounding lines in oldString to identify the correct match, or use replaceAll.".to_owned(),
        ));
    }
    Some(Err("oldString not found in file content".to_owned()))
}

/// Applies one find-and-replace on `content`: the strategies are tried in
/// order and the first that matches wins.
pub fn apply_edit(content: &str, old_string: &str, new_string: &str, replace_all: bool) -> (r: Result<(String, usize), String>)
    requires
        content@.len() < usize::MAX,
        edit_spec(content@, old_string@, new_string@, replace_all) is Some,
    ensures
        edit_spec(content@, old_string@, new_string@, replace_all) == Some(edit_result_view(r)),
{
    match try_apply_edit(content, old_string, new_string, replace_all) {
        Some(x) => x,
        None => Err(String::new()),
    }
}

/// An edit whose old string matches exactly once is that single replacement.
pub proof fn lemma_unique_exact_match(content: Seq<char>, old: Seq<char>, new: Seq<char>, replace_all: bool)
    requires
        old != new,
        count_matches(content, old) == 1,
    ensures
        edit_spec(content, old, new, replace_all) == Some(
            Ok::<(Seq<char>, nat), Seq<char>>(
                if replace_all {
                    (replaced_all(content, old, new), 1nat)
                } else {
                    (crate::text::replaced_first(content, old, new), 1nat)
                },
            ),
        ),
{
}

/// With `replace_all`, an old string that occurs at all is replaced
/// everywhere, and the count is the number of occurrences.
pub proof fn lemma_replace_all_exact(content: Seq<char>, old: Seq<char>, new: Seq<char>)
    requires
        old != new,
        count_matches(content, old) >= 1,
    ensures
        edit_spec(content, old, new, true) == Some(
            Ok::<(Seq<char>, nat), Seq<char>>((replaced_all(content, old, new), count_matches(content, old))),
        ),
{
}

/// Identical old and new strings are always refused.
pub proof fn lemma_identical_refused(content: Seq<char>, s: Seq<char>, replace_all: bool)
    ensures
        edit_spec(content, s, s, replace_all) == Some(Err::<(Seq<char>, nat), Seq<char>>(identical_msg())),
{
}

// ---------------------------------------------------------------------------
// Snippets and line counts
// ---------------------------------------------------------------------------

/// The first `b` bytes of `l`; `None` when `b` is not a character boundary.
pub open spec fn byte_prefix(l: Seq<char>, b: nat) -> Option<Seq<char>>
    decreases l.len(),
{
    if b == 0 {
        Some(seq![])
    } else if l.len() == 0 {
        None
    } else if utf8_width(l[0]) <= b {
        match byte_prefix(l.drop_first(), (b - utf8_width(l[0])) as nat) {
            Some(p) => Some(seq![l[0]] + p),
            None => None,
        }
    } else {
        None
    }
}

/// `s` when it has at most `max_len` bytes, else its first `max_len` bytes
/// followed by `...`; `None` when `max_len` falls inside a character.
pub open spec fn snippet_spec(s: Seq<char>, max_len: nat) -> Option<Seq<char>> {
    if utf8_len(s) <= max_len {
        Some(s)
    } else {
        match byte_prefix(s, max_len) {
            Some(p) => Some(p + "..."@),
            None => None,
        }
    }
}

proof fn lemma_byte_prefix_step(l: Seq<char>, j: int, rem: nat)
    requires
        0 <= j < l.len(),
        rem > 0,
    ensures
        byte_prefix(l.skip(j), rem) == if utf8_width(l[j]) <= rem {
            match byte_prefix(l.skip(j + 1), (rem - utf8_width(l[j])) as nat) {
                Some(p) => Some(seq![l[j]] + p),
                None => None,
            }
        } else {
            None::<Seq<char>>
        },
{
    assert(l.skip(j).drop_first() =~= l.skip(j + 1));
    assert(l.skip(j)[0] == l[j]);
}

/// Shortened text for display; `None` when the cut would fall inside a
/// character.
pub fn snippet(s: &str, max_len: usize) -> (r: Option<String>)
    ensures
        match r {
            None => snippet_spec(s@, max_len as nat) is None,
            Some(v) => snippet_spec(s@, max_len as nat) == Some(v@),
        },
{
    let cs = chars_of(s);
    let total = crate::text::str_byte_len(s);
    if total <= max_len {
        return Some(s.to_owned());
    }
    let mut j: usize = 0;
    let mut rem: usize = max_len;
    assert(cs@.skip(0) =~= cs@);
    while rem > 0
        invariant
            j <= cs.len(),
            cs@ == s@,
            rem <= max_len,
            utf8_len(s@) > max_len,
            byte_prefix(s@, max_len as nat) == match byte_prefix(cs@.skip(j as int), rem as nat) {
                Some(p) => Some(cs@.take(j as int) + p),
                None => None,
            },
        decreases rem,
    {
        if j >= cs.len() {
            assert(cs@.skip(j as int).len() == 0);
            return None;
        }
        let w = char_width(cs[j]);
        proof {
            lemma_byte_prefix_step(cs@, j as int, rem as nat);
            assert(cs@.take(j as int) + seq![cs@[j as int]] =~= cs@.take(j + 1));
            assert forall|p: Seq<char>| cs@.take(j as int) + (seq![cs@[j as int]] + p) == cs@.take(j + 1) + p by {
                assert(cs@.take(j as int) + (seq![cs@[j as int]] + p) =~= cs@.take(j + 1) + p);
            }
        }
        if w > rem {
            return None;
        }
        rem = rem - w;
        j = j + 1;
    }
    assert(cs@.take(j as int) + seq![] =~= cs@.take(j as int));
    let mut out = slice_vec(&cs, 0, j);
    assert(cs@.subrange(0, j as int) =~= cs@.take(j as int));
    append_str(&mut out, "...");
    Some(string_of(&out))
}

/// The first `b` bytes of `cs`, or `None` when `b` is not a character
/// boundary.
pub(crate) fn byte_prefix_exec(cs: &[char], b: usize) -> (r: Option<Vec<char>>)
    ensures
        match r {
            None => byte_prefix(cs@, b as nat) is None,
            Some(v) => byte_prefix(cs@, b as nat) == Some(v@),
        },
{
    let mut j: usize = 0;
    let mut rem: usize = b;
    assert(cs@.skip(0) =~= cs@);
    assert(cs@.take(0) + cs@ =~= cs@);
    while rem > 0
        invariant
            j <= cs.len(),
            rem <= b,
            byte_prefix(cs@, b as nat) == match byte_prefix(cs@.skip(j as int), rem as nat) {
                Some(p) => Some(cs@.take(j as int) + p),
                None => None,
            },
        decreases rem,
    {
        if j >= cs.len() {
            assert(cs@.skip(j as int).len() == 0);
            return None;
        }
        let w = char_width(cs[j]);
        proof {
            lemma_byte_prefix_step(cs@, j as int, rem as nat);
            assert forall|p: Seq<char>| cs@.take(j as int) + (seq![cs@[j as int]] + p) == cs@.take(j + 1) + p by {
                assert(cs@.take(j as int) + (seq![cs@[j as int]] + p) =~= cs@.take(j + 1) + p);
            }
        }
        if w > rem {
            return None;
        }
        rem = rem - w;
        j = j + 1;
    }
    assert(cs@.take(j as int) + seq![] =~= cs@.take(j as int));
    let out = slice_vec(cs, 0, j);
    assert(cs@.subrange(0, j as int) =~= cs@.take(j as int));
    Some(out)
}

/// Number of lines (`str::lines().count()`).
pub fn line_count(s: &str) -> (r: usize)
    ensures
        r == lines_of(s@).len(),
{
    let cs = chars_of(s);
    let ls = lines_vec(&cs);
    ls.len()
}

/// The content after an edit, with the line statistics the edit tool
/// reports: new content, replacements, lines added and lines removed.
/// Content and strings are line-ending normalized first. `None` where the
/// strategy chain would fail on a slice.
pub fn plan_edit(content: &str, old_string: &str, new_string: &str, replace_all: bool) -> (r: Option<Result<(String, usize, usize, usize), String>>)
    ensures
        ({
            let c = normalize_line_endings_spec(content@);
            let o = normalize_line_endings_spec(old_string@);
            let n = normalize_line_endings_spec(new_string@);
            if c.len() >= usize::MAX {
                r is None
            } else {
                match edit_spec(c, o, n, replace_all) {
                    None => r is None,
                    Some(Err(e)) => r matches Some(Err(x)) && x@ == e,
                    Some(Ok((nc, k))) => r matches Some(Ok((v, kk, added, removed))) && v@ == nc && kk == k
                        && added == (if lines_of(nc).len() >= lines_of(c).len() { lines_of(nc).len() - lines_of(c).len() } else { 0 })
                        && removed == (if lines_of(c).len() >= lines_of(nc).len() { lines_of(c).len() - lines_of(nc).len() } else { 0 }),
                }
            }
        }),
{
    let c = normalize_line_endings(content);
    let o = normalize_line_endings(old_string);
    let n = normalize_line_endings(new_string);
    let cs = chars_of(c.as_str());
    if cs.len() >= usize::MAX {
        return None;
    }
    match try_apply_edit(c.as_str(), o.as_str(), n.as_str(), replace_all) {
        None => None,
        Some(Err(e)) => Some(Err(e)),
        Some(Ok((nc, k))) => {
            let old_lines = line_count(c.as_str());
            let new_lines = line_count(nc.as_str());
            let added = if new_lines >= old_lines { new_lines - old_lines } else { 0 };
            let removed = if old_lines >= new_lines { old_lines - new_lines } else { 0 };
            Some(Ok((nc, k, added, removed)))
        },
    }
}

/// Content of a file after the empty-old-string edit: the existing content,
/// if any, followed by the normalized new string.
pub fn appended_content(existing: &str, new_string: &str) -> (r: String)
    ensures
        r@ == existing@ + normalize_line_endings_spec(new_string@),
{
    let n = normalize_line_endings(new_string);
    let mut out = chars_of(existing);
    let ns = chars_of(n.as_str());
    append_chars(&mut out, &ns);
    string_of(&out)
}

// ---------------------------------------------------------------------------
// Tool types
// ---------------------------------------------------------------------------

/// Arguments of the edit tool.
#[derive(Debug)]
pub struct EditArgs {
    pub file_path: String,
    pub old_string: String,
    pub new_string: String,
    pub replace_all: Option<bool>,
}

/// Result reported by the edit tool.
#[derive(Debug)]
pub struct EditResult {
    pub path: String,
    pub old_content_snippet: String,
    pub new_content_snippet: String,
    pub replacements_made: usize,
    pub lines_added: usize,
    pub lines_removed: usize,
    pub diff: Option<String>,
    pub diagnostics: Option<String>,
}

/// The edit tool.
#[derive(Debug)]
pub struct EditTool;

impl EditTool {
    /// The tool.
    pub fn new() -> (r: Self) {
        EditTool
    }

    /// The tool's registered name.
    pub fn name(&self) -> (r: &'static str)
        ensures
            r@ == "edit"@,
    {
        "edit"
    }
}

// ---------------------------------------------------------------------------
// Several edits
// ---------------------------------------------------------------------------

/// One edit of a multi-edit.
#[derive(Debug)]
pub struct SingleEdit {
    pub old_string: String,
    pub new_string: String,
    pub replace_all: Option<bool>,
}

/// Arguments of the multi-edit tool.
#[derive(Debug)]
pub struct MultiEditArgs {
    pub file_path: String,
    pub edits: Vec<SingleEdit>,
}

/// Result reported by the multi-edit tool.
#[derive(Debug)]
pub struct MultiEditResult {
    pub path: String,
    pub edits_applied: usize,
    pub total_replacements: usize,
    pub diagnostics: Option<String>,
}

/// The multi-edit tool.
#[derive(Debug)]
pub struct MultiEditTool;

impl MultiEditTool {
    /// The tool.
    pub fn new() -> (r: Self) {
        MultiEditTool
    }

    /// The tool's registered name.
    pub fn name(&self) -> (r: &'static str)
        ensures
            r@ == "multiedit"@,
    {
        "multiedit"
    }
}

/// An edit as `(old, new, replace_all)`.
pub open spec fn single_edit_view(e: SingleEdit) -> (Seq<char>, Seq<char>, bool) {
    (e.old_string@, e.new_string@, e.replace_all == Some(true))
}

/// Error for the `i`-th edit (counting from 0).
pub open spec fn edit_failed_msg(i: nat, e: Seq<char>) -> Seq<char> {
    "Edit #"@ + decimal(i + 1) + " failed: "@ + e
}

/// The edits from the `i`-th on, applied in order to `content`, with
/// `total` replacements so far. `None` where an edit would fail on a slice,
/// the running total would overflow, or the content reaches the machine's
/// size limit.
pub open spec fn edits_from(content: Seq<char>, edits: Seq<(Seq<char>, Seq<char>, bool)>, i: nat, total: nat) -> Option<EditOutcome>
    decreases edits.len() - i,
{
    if i >= edits.len() {
        Some(Ok((content, total)))
    } else if content.len() >= usize::MAX {
        None
    } else {
        match edit_spec(content, edits[i as int].0, edits[i as int].1, edits[i as int].2) {
            None => None,
            Some(Err(e)) => Some(Err(edit_failed_msg(i, e))),
            Some(Ok((c, n))) => if total + n > usize::MAX {
                None
            } else {
                edits_from(c, edits, i + 1, total + n)
            },
        }
    }
}

/// Applies the edits one after the other: the final content and the total
/// number of replacements, or the first failure. `None` where a slice
/// would fall inside a character or a count would overflow.
pub fn apply_edits(content: &str, edits: &Vec<SingleEdit>) -> (r: Option<Result<(String, usize), String>>)
    requires
        edits.len() < u64::MAX,
    ensures
        match r {
            None => edits_from(content@, edits@.map_values(|e: SingleEdit| single_edit_view(e)), 0, 0) is None,
            Some(x) => edits_from(content@, edits@.map_values(|e: SingleEdit| single_edit_view(e)), 0, 0) == Some(
                edit_result_view(x),
            ),
        },
{
    let ghost ev = edits@.map_values(|e: SingleEdit| single_edit_view(e));
    let mut current: String = content.to_owned();
    let mut total: usize = 0;
    let mut i: usize = 0;
    while i < edits.len()
        invariant
            i <= edits.len(),
            edits.len() < u64::MAX,
            ev == edits@.map_values(|e: SingleEdit| single_edit_view(e)),
            edits_from(content@, ev, 0, 0) == edits_from(current@, ev, i as nat, total as nat),
        decreases edits.len() - i,
    {
        let cs = chars_of(current.as_str());
        if cs.len() >= usize::MAX {
            return None;
        }
        let e = &edits[i];
        let ra = match e.replace_all {
            Some(b) => b,
            None => false,
        };
        assert(ev[i as int] == single_edit_view(edits@[i as int]));
        match try_apply_edit(current.as_str(), e.old_string.as_str(), e.new_string.as_str(), ra) {
            None => {
                return None;
            },
            Some(Err(msg)) => {
                let mut out = chars_of("Edit #");
                let num = decimal_vec((i + 1) as u64);
                append_chars(&mut out, &num);
                append_str(&mut out, " failed: ");
                let ms = chars_of(msg.as_str());
                append_chars(&mut out, &ms);
                return Some(Err(string_of(&out)));
            },
            Some(Ok((nc, k))) => {
                if k > usize::MAX - total {
                    return None;
                }
                total = total + k;
                current = nc;
            },
        }
        i = i + 1;
    }
    Some(Ok((current, total)))
}

/// Applying a list of edits is applying the first one and then the rest to
/// its result; a failing edit fails the whole list.
pub proof fn lemma_edits_sequential(content: Seq<char>, edits: Seq<(Seq<char>, Seq<char>, bool)>, i: nat, total: nat)
    requires
        i < edits.len(),
        content.len() < usize::MAX,
    ensures
        edits_from(content, edits, i, total) == match edit_spec(content, edits[i as int].0, edits[i as int].1, edits[i as int].2) {
            None => None,
            Some(Err(e)) => Some(Err(edit_failed_msg(i, e))),
            Some(Ok((c, n))) => if total + n > usize::MAX {
                None
            } else {
                edits_from(c, edits, i + 1, total + n)
            },
        },
{
}

/// No edits leave the content as it is, with no replacements.
pub proof fn lemma_no_edits(content: Seq<char>)
    ensures
        edits_from(content, seq![], 0, 0) == Some(Ok::<(Seq<char>, nat), Seq<char>>((content, 0nat))),
{
}

} // verus!
