//! The directory-listing tool's logic: which entries are skipped, the
//! entry cap, and the indented tree rendering.
use vstd::prelude::*;
use crate::text::{append_chars, append_str, chars_eq, chars_of, ends_with, ends_with_exec, lemma_views_push, split_on, split_vec, string_of, views};

verus! {

/// Most entries listed.
pub const MAX_ENTRIES: usize = 100;

/// Arguments of the listing tool.
#[derive(Debug)]
pub struct LsArgs {
    pub path: String,
}

/// Result of the listing tool.
#[derive(Debug)]
pub struct LsResult {
    pub output: String,
    pub total_entries: usize,
    pub truncated: bool,
}

/// The listing tool.
#[derive(Debug)]
pub struct LsTool;

impl LsTool {
    pub fn new() -> (r: Self) {
        LsTool
    }

    /// The tool's registered name.
    pub fn name(&self) -> (r: &'static str)
        ensures
            r@ == "LS"@,
    {
        "LS"
    }

    /// What the tool does, for the model.
    pub fn description(&self) -> (r: &'static str)
        ensures
            r@ == ls_description(),
    {
        "Lists a directory as an indented tree, respecting .gitignore and skipping build and dependency directories such as node_modules and target. The path must be an absolute path. At most 100 entries are shown; to find files by name use Glob, to search contents use RipGrep."
    }
}

/// The listing tool's description.
pub open spec fn ls_description() -> Seq<char> {
    "Lists a directory as an indented tree, respecting .gitignore and skipping build and dependency directories such as node_modules and target. The path must be an absolute path. At most 100 entries are shown; to find files by name use Glob, to search contents use RipGrep."@
}

/// Directory and file names that are never listed.
pub open spec fn ignore_patterns() -> Seq<Seq<char>> {
    seq![
        "node_modules"@, "__pycache__"@, ".git"@, "dist"@, "build"@, "target"@, "vendor"@, "bin"@, "obj"@,
        ".idea"@, ".vscode"@, ".zig-cache"@, "zig-out"@, ".coverage"@, "coverage"@, "tmp"@, "temp"@, ".cache"@,
        "cache"@, "logs"@, ".venv"@, "venv"@, "env"@,
    ]
}

fn ignore_patterns_exec() -> (r: Vec<Vec<char>>)
    ensures
        views(r@) == ignore_patterns(),
{
    let names = [
        "node_modules", "__pycache__", ".git", "dist", "build", "target", "vendor", "bin", "obj", ".idea", ".vscode",
        ".zig-cache", "zig-out", ".coverage", "coverage", "tmp", "temp", ".cache", "cache", "logs", ".venv", "venv", "env",
    ];
    let mut out: Vec<Vec<char>> = Vec::new();
    let mut i: usize = 0;
    while i < 23
        invariant
            i <= 23,
            views(out@) == names@.map_values(|s: &str| s@).take(i as int),
        decreases 23 - i,
    {
        let c = chars_of(names[i]);
        proof {
            lemma_views_push(out@, c);
            assert(names@.map_values(|s: &str| s@).take(i + 1) =~= names@.map_values(|s: &str| s@).take(i as int).push(c@));
        }
        out.push(c);
        i = i + 1;
    }
    assert(names@.map_values(|s: &str| s@).take(23) =~= ignore_patterns());
    out
}

/// Some component of an entry's relative path is an ignored name.
pub open spec fn is_ignored_spec(components: Seq<Seq<char>>) -> bool {
    exists|i: int| 0 <= i < components.len() && ignore_patterns().contains(#[trigger] components[i])
}

/// Whether an entry, given its path components, is skipped.
pub fn is_ignored(components: &[String]) -> (r: bool)
    ensures
        r == is_ignored_spec(components@.map_values(|s: String| s@)),
{
    let pats = ignore_patterns_exec();
    let ghost cv = components@.map_values(|s: String| s@);
    let mut i: usize = 0;
    while i < components.len()
        invariant
            i <= components.len(),
            views(pats@) == ignore_patterns(),
            cv == components@.map_values(|s: String| s@),
            forall|k: int| 0 <= k < i ==> !ignore_patterns().contains(#[trigger] cv[k]),
        decreases components.len() - i,
    {
        let c = chars_of(components[i].as_str());
        let mut j: usize = 0;
        let mut hit = false;
        while j < pats.len()
            invariant
                j <= pats.len(),
                views(pats@) == ignore_patterns(),
                c@ == cv[i as int],
                hit ==> ignore_patterns().contains(c@),
                !hit ==> forall|k: int| 0 <= k < j ==> views(pats@)[k] != c@,
            decreases pats.len() - j,
        {
            if chars_eq(&pats[j], &c) {
                assert(views(pats@)[j as int] == c@);
                hit = true;
            }
            j = j + 1;
        }
        if hit {
            assert(ignore_patterns().contains(cv[i as int]));
            return true;
        }
        i = i + 1;
    }
    false
}

/// The listed name of an entry: directories end with `/`.
pub fn entry_label(name: &str, is_dir: bool) -> (r: String)
    ensures
        r@ == if is_dir { name@ + "/"@ } else { name@ },
{
    if is_dir {
        let mut out = chars_of(name);
        append_str(&mut out, "/");
        string_of(&out)
    } else {
        name.to_owned()
    }
}

/// Number of `c` in `s`.
pub open spec fn count_char(s: Seq<char>, c: char) -> nat
    decreases s.len(),
{
    if s.len() == 0 {
        0
    } else {
        count_char(s.drop_last(), c) + if s.last() == c { 1nat } else { 0nat }
    }
}

/// The last non-empty part, if any.
pub open spec fn last_nonempty(parts: Seq<Seq<char>>) -> Option<Seq<char>>
    decreases parts.len(),
{
    if parts.len() == 0 {
        None
    } else if parts.last().len() > 0 {
        Some(parts.last())
    } else {
        last_nonempty(parts.drop_last())
    }
}

/// `n` copies of two spaces.
pub open spec fn indent(n: nat) -> Seq<char>
    decreases n,
{
    if n == 0 {
        seq![]
    } else {
        indent((n - 1) as nat) + "  "@
    }
}

/// One tree line for an entry: two spaces per enclosing directory, the last
/// non-empty path part (a directory keeps its `/`), and a newline.
pub open spec fn tree_line(f: Seq<char>) -> Seq<char> {
    let is_dir = ends_with(f, "/"@);
    let slashes = count_char(f, '/');
    let depth: nat = if is_dir { if slashes >= 1 { (slashes - 1) as nat } else { 0 } } else { slashes };
    let base = match last_nonempty(split_on(f, '/')) {
        Some(b) => b,
        None => f,
    };
    indent(depth) + base + (if is_dir { "/"@ } else { seq![] }) + "\n"@
}

/// The tree of the listed entries.
pub open spec fn render_tree_spec(files: Seq<Seq<char>>) -> Seq<char>
    decreases files.len(),
{
    if files.len() == 0 {
        seq![]
    } else {
        render_tree_spec(files.drop_last()) + tree_line(files.last())
    }
}

fn count_char_exec(s: &[char], c: char) -> (r: usize)
    ensures
        r == count_char(s@, c),
{
    let mut n: usize = 0;
    let mut i: usize = 0;
    assert(s@.take(0) =~= Seq::<char>::empty());
    while i < s.len()
        invariant
            i <= s.len(),
            n <= i,
            n == count_char(s@.take(i as int), c),
        decreases s.len() - i,
    {
        assert(s@.take(i + 1).drop_last() =~= s@.take(i as int));
        if s[i] == c {
            n = n + 1;
        }
        i = i + 1;
    }
    assert(s@.take(s@.len() as int) =~= s@);
    n
}

fn tree_line_exec(f: &[char]) -> (r: Vec<char>)
    ensures
        r@ == tree_line(f@),
{
    let is_dir = ends_with_exec(f, &chars_of("/"));
    let slashes = count_char_exec(f, '/');
    let depth = if is_dir { if slashes >= 1 { slashes - 1 } else { 0 } } else { slashes };
    let parts = split_vec(f, '/');
    let ghost pv = views(parts@);
    let mut k = parts.len();
    let mut found: Option<usize> = None;
    assert(pv.take(k as int) =~= pv);
    while k > 0 && found.is_none()
        invariant
            k <= parts.len(),
            pv == views(parts@),
            found matches Some(j) ==> j < parts.len() && last_nonempty(pv) == Some(pv[j as int]),
            found is None ==> last_nonempty(pv) == last_nonempty(pv.take(k as int)),
        decreases k + (if found is None { 1int } else { 0int }),
    {
        proof {
            assert(pv.take(k as int).drop_last() =~= pv.take(k - 1));
            assert(pv.take(k as int).last() == pv[k - 1]);
        }
        if parts[k - 1].len() > 0 {
            found = Some(k - 1);
        } else {
            k = k - 1;
        }
    }
    proof {
        if found is None {
            assert(pv.take(0) =~= Seq::<Seq<char>>::empty());
        }
    }
    let base: Vec<char> = match found {
        Some(j) => {
            let b = crate::text::slice_vec(&parts[j], 0, parts[j].len());
            assert(parts@[j as int]@.subrange(0, parts@[j as int]@.len() as int) =~= parts@[j as int]@);
            b
        },
        None => crate::text::slice_vec(f, 0, f.len()),
    };
    assert(f@.subrange(0, f@.len() as int) =~= f@);
    let mut out: Vec<char> = Vec::new();
    let mut d: usize = 0;
    while d < depth
        invariant
            d <= depth,
            out@ == indent(d as nat),
        decreases depth - d,
    {
        append_str(&mut out, "  ");
        d = d + 1;
    }
    append_chars(&mut out, &base);
    if is_dir {
        append_str(&mut out, "/");
    } else {
        assert(out@ + seq![] =~= out@);
    }
    append_str(&mut out, "\n");
    out
}

/// The indented tree of the listed entries, one line each.
pub fn render_tree(files: &[String]) -> (r: String)
    ensures
        r@ == render_tree_spec(files@.map_values(|s: String| s@)),
{
    let ghost fv = files@.map_values(|s: String| s@);
    let mut out: Vec<char> = Vec::new();
    let mut i: usize = 0;
    assert(fv.take(0) =~= Seq::<Seq<char>>::empty());
    while i < files.len()
        invariant
            i <= files.len(),
            fv == files@.map_values(|s: String| s@),
            out@ == render_tree_spec(fv.take(i as int)),
        decreases files.len() - i,
    {
        let line = tree_line_exec(&chars_of(files[i].as_str()));
        proof {
            assert(fv.take(i + 1).drop_last() =~= fv.take(i as int));
            assert(fv.take(i + 1).last() == fv[i as int]);
        }
        append_chars(&mut out, &line);
        i = i + 1;
    }
    assert(fv.take(files@.len() as int) =~= fv);
    string_of(&out)
}

/// The listing result for the entries collected (at most `MAX_ENTRIES`):
/// the tree, the count, and whether the cap was reached.
pub fn listing_result(files: &[String]) -> (r: LsResult)
    ensures
        r.output@ == render_tree_spec(files@.map_values(|s: String| s@)),
        r.total_entries == files@.len(),
        r.truncated == (files@.len() >= MAX_ENTRIES),
{
    LsResult { output: render_tree(files), total_entries: files.len(), truncated: files.len() >= MAX_ENTRIES }
}

/// `count_char` counts the occurrences of `c`.
proof fn lemma_count_char_filter(s: Seq<char>, c: char)
    ensures
        count_char(s, c) == s.filter(|x: char| x == c).len(),
    decreases s.len(),
{
    reveal(Seq::filter);
    if s.len() > 0 {
        lemma_count_char_filter(s.drop_last(), c);
    }
}

/// `indent(n)` is `2 * n` spaces.
proof fn lemma_indent_spaces(n: nat)
    ensures
        indent(n) == Seq::new(2 * n, |i: int| ' '),
    decreases n,
{
    reveal_strlit("  ");
    if n > 0 {
        lemma_indent_spaces((n - 1) as nat);
        assert(indent(n) =~= Seq::new(2 * n, |i: int| ' '));
    } else {
        assert(indent(0) =~= Seq::new(0, |i: int| ' '));
    }
}

/// The last part of a split is the suffix of `s` after its last `c`.
proof fn lemma_split_last(s: Seq<char>, c: char)
    ensures
        split_on(s, c).len() >= 1,
        split_on(s, c).last().len() <= s.len(),
        s.skip(s.len() - split_on(s, c).last().len()) == split_on(s, c).last(),
        !split_on(s, c).last().contains(c),
        split_on(s, c).last().len() == 0 ==> s.len() == 0 || s.last() == c,
    decreases s.len(),
{
    crate::text::lemma_index_of_props(s, c);
    let k = crate::text::index_of(s, c);
    if k < 0 {
        assert(s.skip(0) =~= s);
        assert(split_on(s, c) == seq![s]);
        assert(!s.contains(c)) by {
            if s.contains(c) {
                let j = choose|j: int| 0 <= j < s.len() && s[j] == c;
                assert(s[j] != c);
            }
        }
    } else {
        let r = s.skip(k + 1);
        lemma_split_last(r, c);
        let parts = split_on(s, c);
        assert(parts == seq![s.take(k)] + split_on(r, c));
        assert(parts.last() == split_on(r, c).last());
        let t = parts.last();
        assert(s.skip(s.len() - t.len()) =~= r.skip(r.len() - t.len()));
        if t.len() == 0 && r.len() > 0 {
            assert(s.last() == r.last());
        }
        if t.len() == 0 && r.len() == 0 {
            assert(k == s.len() - 1);
            assert(s.last() == c);
        }
    }
}

/// The tree line of a file (a path not ending in `/`) is indented by two
/// spaces per `/` in its path, i.e. per enclosing directory, followed by
/// its name (the part of the path after the last `/`, without any `/`) and
/// a newline.
pub proof fn lemma_file_tree_line(f: Seq<char>)
    requires
        !ends_with(f, "/"@),
    ensures
        exists|name: Seq<char>|
            #![trigger f.skip(f.len() - name.len())]
            tree_line(f) == Seq::new(2 * f.filter(|x: char| x == '/').len(), |i: int| ' ') + name + "\n"@
                && name.len() <= f.len() && f.skip(f.len() - name.len()) == name && !name.contains('/')
                && (f.len() > 0 ==> name.len() > 0),
{
    reveal_strlit("/");
    lemma_count_char_filter(f, '/');
    let k = count_char(f, '/');
    lemma_indent_spaces(k);
    lemma_split_last(f, '/');
    let parts = split_on(f, '/');
    let t = parts.last();
    if f.len() > 0 {
        assert(f.last() != '/') by {
            if f.last() == '/' {
                assert(f.skip(f.len() - 1) =~= "/"@);
            }
        }
        assert(t.len() > 0);
        assert(last_nonempty(parts) == Some(t));
        assert(tree_line(f) == indent(k) + t + "\n"@) by {
            assert(tree_line(f) =~= indent(k) + t + seq![] + "\n"@);
        }
    } else {
        assert(parts == seq![f]);
        assert(t.len() == 0);
        assert(last_nonempty(parts.drop_last()) is None) by {
            assert(parts.drop_last().len() == 0);
        }
        assert(tree_line(f) =~= indent(k) + f + "\n"@);
        assert(f.skip(0) =~= f);
    }
}

/// Splitting after appending the separator adds one empty last part.
proof fn lemma_split_push_sep(s: Seq<char>, c: char)
    ensures
        split_on(s.push(c), c) == split_on(s, c).push(seq![]),
    decreases s.len(),
{
    let sc = s.push(c);
    crate::text::lemma_index_of_props(s, c);
    crate::text::lemma_index_of_props(sc, c);
    let j = crate::text::index_of(s, c);
    let k = crate::text::index_of(sc, c);
    if j < 0 {
        assert(sc[s.len() as int] == c);
        if k < s.len() {
            assert(sc[k] == s[k]);
        }
        assert(k == s.len());
        assert(sc.take(k) =~= s);
        assert(sc.skip(k + 1) =~= Seq::<char>::empty());
        crate::text::lemma_index_of_props(Seq::<char>::empty(), c);
        assert(split_on(Seq::<char>::empty(), c) == seq![Seq::<char>::empty()]);
        assert(split_on(s, c) == seq![s]);
        assert(split_on(sc, c) =~= seq![s].push(seq![]));
    } else {
        assert(sc[j] == s[j]);
        if k < j {
            assert(sc[k] == s[k]);
        }
        assert(k == j);
        let r = s.skip(j + 1);
        lemma_split_push_sep(r, c);
        assert(sc.skip(j + 1) =~= r.push(c));
        assert(sc.take(j) =~= s.take(j));
        assert(split_on(sc, c) =~= split_on(s, c).push(seq![]));
    }
}

/// The tree line of a directory (a path ending in one `/`) is indented by
/// two spaces per enclosing directory (the `/`s before its own), followed
/// by its name (the part after the previous `/`), `/` and a newline.
pub proof fn lemma_dir_tree_line(g: Seq<char>)
    requires
        g.len() > 0,
        !ends_with(g, "/"@),
    ensures
        exists|name: Seq<char>|
            #![trigger g.skip(g.len() - name.len())]
            tree_line(g.push('/')) == Seq::new(2 * g.filter(|x: char| x == '/').len(), |i: int| ' ') + name + "/\n"@
                && 0 < name.len() <= g.len() && g.skip(g.len() - name.len()) == name && !name.contains('/'),
{
    reveal_strlit("/");
    reveal_strlit("/\n");
    reveal_strlit("\n");
    let f = g.push('/');
    assert(ends_with(f, "/"@)) by {
        assert(f.skip(f.len() - 1) =~= "/"@);
    }
    lemma_count_char_filter(g, '/');
    assert(f.drop_last() =~= g);
    let k = count_char(g, '/');
    assert(count_char(f, '/') == k + 1);
    lemma_indent_spaces(k);
    lemma_split_push_sep(g, '/');
    lemma_split_last(g, '/');
    let parts = split_on(g, '/');
    let t = parts.last();
    assert(g.last() != '/') by {
        if g.last() == '/' {
            assert(g.skip(g.len() - 1) =~= "/"@);
        }
    }
    assert(t.len() > 0);
    let pf = split_on(f, '/');
    assert(pf == parts.push(seq![]));
    assert(pf.last().len() == 0);
    assert(pf.drop_last() =~= parts);
    assert(last_nonempty(parts) == Some(t));
    assert(last_nonempty(pf) == last_nonempty(pf.drop_last()));
    assert(last_nonempty(pf) == Some(t));
    assert(tree_line(f) =~= indent(k) + t + "/\n"@);
}

} // verus!
