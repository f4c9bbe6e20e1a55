//! The search tools' logic: the command lines of the external structural
//! and regex searchers and the reading of their exit status, the ordering
//! of glob matches, and the shaping of grep results.
use vstd::prelude::*;
use crate::text::{append_chars, append_str, chars_of, decimal, decimal_vec, string_of};

verus! {

pub open spec fn strs_view(v: Seq<String>) -> Seq<Seq<char>> {
    v.map_values(|s: String| s@)
}

fn push_str(v: &mut Vec<String>, s: &str)
    ensures
        strs_view(final(v)@) == strs_view(old(v)@).push(s@),
{
    let x = s.to_owned();
    v.push(x);
    assert(strs_view(v@) =~= strs_view(old(v)@).push(s@));
}

fn push_string(v: &mut Vec<String>, s: String)
    ensures
        strs_view(final(v)@) == strs_view(old(v)@).push(s@),
{
    let ghost sv = s@;
    v.push(s);
    assert(strs_view(v@) =~= strs_view(old(v)@).push(sv));
}

/// Decimal text of a count.
fn usize_text(n: usize) -> (r: String)
    ensures
        r@ == decimal(n as nat),
{
    string_of(&decimal_vec(n as u64))
}

// ---------------------------------------------------------------------------
// Structural search
// ---------------------------------------------------------------------------

/// Arguments of the structural search tool.
#[derive(Debug)]
pub struct AstGrepArgs {
    pub pattern: String,
    pub path: Option<String>,
    pub language: Option<String>,
}

/// One structural match.
#[derive(Debug)]
pub struct AstGrepMatch {
    pub file: String,
    pub line: u64,
    pub column: u64,
    pub text: String,
}

/// Result of the structural search tool.
#[derive(Debug)]
pub struct AstGrepResult {
    pub matches: Vec<AstGrepMatch>,
    pub count: usize,
}

/// The structural search tool.
#[derive(Debug)]
pub struct AstGrepTool;

impl AstGrepTool {
    pub fn new() -> (r: Self) {
        AstGrepTool
    }

    /// The tool's registered name.
    pub fn name(&self) -> (r: &'static str)
        ensures
            r@ == "AstGrep"@,
    {
        "AstGrep"
    }

    /// What the tool does, for the model.
    pub fn description(&self) -> (r: &'static str)
        ensures
            r@ == "Searches code by syntax tree patterns with ast-grep (sg). Patterns are code with $VAR metavariables, e.g. 'console.log($A)'. Optionally restrict the language and the path; results list the file, line, column and matched text."@,
    {
        "Searches code by syntax tree patterns with ast-grep (sg). Patterns are code with $VAR metavariables, e.g. 'console.log($A)'. Optionally restrict the language and the path; results list the file, line, column and matched text."
    }
}

/// Command-line arguments of `sg` for a search.
pub open spec fn ast_grep_args_spec(pattern: Seq<char>, language: Option<Seq<char>>, path: Option<Seq<char>>) -> Seq<Seq<char>> {
    let base = seq!["run"@, "--pattern"@, pattern, "--json"@];
    let with_lang = match language {
        Some(l) => base + seq!["--lang"@, l],
        None => base,
    };
    with_lang.push(
        match path {
            Some(p) => p,
            None => "."@,
        },
    )
}

pub open spec fn opt_view(o: Option<String>) -> Option<Seq<char>> {
    match o {
        Some(s) => Some(s@),
        None => None,
    }
}

/// The arguments `sg` is run with.
pub fn ast_grep_command_args(args: &AstGrepArgs) -> (r: Vec<String>)
    ensures
        strs_view(r@) == ast_grep_args_spec(args.pattern@, opt_view(args.language), opt_view(args.path)),
{
    let mut v: Vec<String> = Vec::new();
    push_str(&mut v, "run");
    push_str(&mut v, "--pattern");
    push_str(&mut v, args.pattern.as_str());
    push_str(&mut v, "--json");
    match &args.language {
        Some(l) => {
            push_str(&mut v, "--lang");
            push_str(&mut v, l.as_str());
        },
        None => {},
    }
    match &args.path {
        Some(p) => push_str(&mut v, p.as_str()),
        None => push_str(&mut v, "."),
    }
    assert(strs_view(v@) =~= ast_grep_args_spec(args.pattern@, opt_view(args.language), opt_view(args.path)));
    v
}

/// Decimal text of an `i32`, with a minus sign when negative.
pub open spec fn i32_text(n: i32) -> Seq<char> {
    if n < 0 {
        "-"@ + decimal((-(n as int)) as nat)
    } else {
        decimal(n as nat)
    }
}

fn i32_text_exec(n: i32) -> (r: Vec<char>)
    ensures
        r@ == i32_text(n),
{
    if n < 0 {
        let m: u64 = (-(n as i64)) as u64;
        let mut out = chars_of("-");
        append_chars(&mut out, &decimal_vec(m));
        out
    } else {
        decimal_vec(n as u64)
    }
}

/// Error of a failed structural search.
pub open spec fn ast_grep_failed_msg(code: Option<i32>, stderr: Seq<char>) -> Seq<char> {
    "ast-grep failed (exit "@ + i32_text(
        match code {
            Some(c) => c,
            None => -1i32,
        },
    ) + "): "@ + stderr
}

/// The reading of `sg`'s exit status: success, or the "no match" exit code
/// 1, is accepted; anything else is an error carrying the code and stderr.
pub fn ast_grep_exit_check(success: bool, code: Option<i32>, stderr: &str) -> (r: Result<(), String>)
    ensures
        (success || code == Some(1i32)) ==> r is Ok,
        !(success || code == Some(1i32)) ==> (r matches Err(m) && m@ == ast_grep_failed_msg(code, stderr@)),
{
    let one = match code {
        Some(c) => c == 1,
        None => false,
    };
    if !success && !one {
        let c = match code {
            Some(c) => c,
            None => -1,
        };
        let mut m = chars_of("ast-grep failed (exit ");
        append_chars(&mut m, &i32_text_exec(c));
        append_str(&mut m, "): ");
        append_str(&mut m, stderr);
        return Err(string_of(&m));
    }
    Ok(())
}

// ---------------------------------------------------------------------------
// Regex search
// ---------------------------------------------------------------------------

/// Arguments of the regex search tool.
#[derive(Debug)]
pub struct RipGrepArgs {
    pub pattern: String,
    pub path: Option<String>,
    pub file_type: Option<String>,
    pub glob: Option<String>,
    pub fixed_strings: Option<bool>,
    pub max_count: Option<usize>,
    pub context: Option<usize>,
    pub multiline: Option<bool>,
    pub json: Option<bool>,
    pub word_regexp: Option<bool>,
    pub invert_match: Option<bool>,
}

/// Result of the regex search tool.
#[derive(Debug)]
pub struct RipGrepResult {
    pub output: String,
    pub exit_code: Option<i32>,
}

/// The regex search tool.
#[derive(Debug)]
pub struct RipGrepTool;

impl RipGrepTool {
    pub fn new() -> (r: Self) {
        RipGrepTool
    }

    /// The tool's registered name.
    pub fn name(&self) -> (r: &'static str)
        ensures
            r@ == "RipGrep"@,
    {
        "RipGrep"
    }

    /// What the tool does, for the model.
    pub fn description(&self) -> (r: &'static str)
        ensures
            r@ == "Searches file contents with ripgrep (rg) for a regex pattern. Supports file type and glob filters, fixed strings, context lines, multiline, word and inverted matching. Output includes line numbers."@,
    {
        "Searches file contents with ripgrep (rg) for a regex pattern. Supports file type and glob filters, fixed strings, context lines, multiline, word and inverted matching. Output includes line numbers."
    }
}

/// `flag` when `b` is set.
pub open spec fn flag_if(b: Option<bool>, flag: Seq<char>) -> Seq<Seq<char>> {
    if b == Some(true) {
        seq![flag]
    } else {
        seq![]
    }
}

/// `flag value` when there is a value.
pub open spec fn opt_flag(o: Option<Seq<char>>, flag: Seq<char>) -> Seq<Seq<char>> {
    match o {
        Some(v) => seq![flag, v],
        None => seq![],
    }
}

/// `flag n` when there is a number.
pub open spec fn num_flag(o: Option<usize>, flag: Seq<char>) -> Seq<Seq<char>> {
    match o {
        Some(n) => seq![flag, decimal(n as nat)],
        None => seq![],
    }
}

/// The filtering options of an `rg` search.
pub open spec fn rg_filter_args(a: RipGrepArgs) -> Seq<Seq<char>> {
    opt_flag(opt_view(a.file_type), "--type"@) + opt_flag(opt_view(a.glob), "--glob"@) + flag_if(
        a.fixed_strings,
        "--fixed-strings"@,
    ) + num_flag(a.max_count, "--max-count"@) + num_flag(a.context, "--context"@)
}

/// The matching-mode options of an `rg` search.
pub open spec fn rg_mode_args(a: RipGrepArgs) -> Seq<Seq<char>> {
    flag_if(a.multiline, "--multiline"@) + flag_if(a.json, "--json"@) + flag_if(a.word_regexp, "--word-regexp"@)
        + flag_if(a.invert_match, "--invert-match"@)
}

/// Command-line arguments of `rg` for a search: the pattern, the options,
/// line numbers, and the path (`.` by default).
pub open spec fn rip_grep_args_spec(a: RipGrepArgs) -> Seq<Seq<char>> {
    seq![a.pattern@] + rg_filter_args(a) + rg_mode_args(a) + seq![
        "--line-number"@,
        match opt_view(a.path) {
            Some(p) => p,
            None => "."@,
        },
    ]
}

fn is_true(b: Option<bool>) -> (r: bool)
    ensures
        r == (b == Some(true)),
{
    match b {
        Some(x) => x,
        None => false,
    }
}

fn push_opt_flag(v: &mut Vec<String>, flag: &str, val: &Option<String>)
    ensures
        strs_view(final(v)@) == strs_view(old(v)@) + opt_flag(opt_view(*val), flag@),
{
    match val {
        Some(x) => {
            push_str(v, flag);
            push_str(v, x.as_str());
        },
        None => {},
    }
    assert(strs_view(v@) =~= strs_view(old(v)@) + opt_flag(opt_view(*val), flag@));
}

fn push_num_flag(v: &mut Vec<String>, flag: &str, val: Option<usize>)
    ensures
        strs_view(final(v)@) == strs_view(old(v)@) + num_flag(val, flag@),
{
    match val {
        Some(n) => {
            push_str(v, flag);
            push_string(v, usize_text(n));
        },
        None => {},
    }
    assert(strs_view(v@) =~= strs_view(old(v)@) + num_flag(val, flag@));
}

fn push_flag_if(v: &mut Vec<String>, flag: &str, b: Option<bool>)
    ensures
        strs_view(final(v)@) == strs_view(old(v)@) + flag_if(b, flag@),
{
    if is_true(b) {
        push_str(v, flag);
    }
    assert(strs_view(v@) =~= strs_view(old(v)@) + flag_if(b, flag@));
}

fn rg_filter_args_exec(args: &RipGrepArgs, v: &mut Vec<String>)
    ensures
        strs_view(final(v)@) == strs_view(old(v)@) + rg_filter_args(*args),
{
    let ghost s0 = strs_view(v@);
    push_opt_flag(v, "--type", &args.file_type);
    push_opt_flag(v, "--glob", &args.glob);
    push_flag_if(v, "--fixed-strings", args.fixed_strings);
    push_num_flag(v, "--max-count", args.max_count);
    push_num_flag(v, "--context", args.context);
    assert(strs_view(v@) =~= s0 + rg_filter_args(*args));
}

fn rg_mode_args_exec(args: &RipGrepArgs, v: &mut Vec<String>)
    ensures
        strs_view(final(v)@) == strs_view(old(v)@) + rg_mode_args(*args),
{
    let ghost s0 = strs_view(v@);
    push_flag_if(v, "--multiline", args.multiline);
    push_flag_if(v, "--json", args.json);
    push_flag_if(v, "--word-regexp", args.word_regexp);
    push_flag_if(v, "--invert-match", args.invert_match);
    assert(strs_view(v@) =~= s0 + rg_mode_args(*args));
}

/// The arguments `rg` is run with.
pub fn rip_grep_command_args(args: &RipGrepArgs) -> (r: Vec<String>)
    ensures
        strs_view(r@) == rip_grep_args_spec(*args),
{
    let mut v: Vec<String> = Vec::new();
    push_str(&mut v, args.pattern.as_str());
    rg_filter_args_exec(args, &mut v);
    rg_mode_args_exec(args, &mut v);
    let ghost s = strs_view(v@);
    push_str(&mut v, "--line-number");
    match &args.path {
        Some(p) => push_str(&mut v, p.as_str()),
        None => push_str(&mut v, "."),
    }
    assert(strs_view(v@) =~= rip_grep_args_spec(*args));
    v
}

/// The reading of `rg`'s result: exit code 2 is an error carrying stderr;
/// otherwise the output and exit code are reported and stderr dropped.
pub fn rip_grep_outcome(exit_code: Option<i32>, stdout: &str, stderr: &str) -> (r: Result<RipGrepResult, String>)
    ensures
        exit_code == Some(2i32) ==> (r matches Err(m) && m@ == "ripgrep error: "@ + stderr@),
        exit_code != Some(2i32) ==> (r matches Ok(res) && res.output@ == stdout@ && res.exit_code == exit_code),
{
    let two = match exit_code {
        Some(c) => c == 2,
        None => false,
    };
    if two {
        let mut m = chars_of("ripgrep error: ");
        append_str(&mut m, stderr);
        return Err(string_of(&m));
    }
    Ok(RipGrepResult { output: stdout.to_owned(), exit_code })
}

// ---------------------------------------------------------------------------
// Glob
// ---------------------------------------------------------------------------

/// Most matches a glob search reports.
pub const GLOB_MAX_RESULTS: usize = 1000;

/// Arguments of the glob tool.
#[derive(Debug)]
pub struct GlobArgs {
    pub pattern: String,
    pub path: Option<String>,
}

/// A matched file and its modification time (RFC 3339), if known.
#[derive(Debug)]
pub struct GlobFileEntry {
    pub path: String,
    pub modified: Option<String>,
}

/// Result of the glob tool.
#[derive(Debug)]
pub struct GlobResult {
    pub files: Vec<GlobFileEntry>,
    pub total_matches: usize,
    pub truncated: bool,
}

/// The glob tool.
#[derive(Debug)]
pub struct GlobTool;

impl GlobTool {
    pub fn new() -> (r: Self) {
        GlobTool
    }

    /// The tool's registered name.
    pub fn name(&self) -> (r: &'static str)
        ensures
            r@ == "Glob"@,
    {
        "Glob"
    }

    /// What the tool does, for the model.
    pub fn description(&self) -> (r: &'static str)
        ensures
            r@ == glob_description(),
    {
        "Finds files by glob pattern (e.g. '**/*.rs') under a directory, respecting .gitignore. Results are sorted by modification time, newest first, and capped at 1000. For open-ended searches that need several rounds, use the Agent tool instead."
    }
}

/// The glob tool's description.
pub open spec fn glob_description() -> Seq<char> {
    "Finds files by glob pattern (e.g. '**/*.rs') under a directory, respecting .gitignore. Results are sorted by modification time, newest first, and capped at 1000. For open-ended searches that need several rounds, use the Agent tool instead."@
}

/// A compiled set of glob patterns, carried through opaque.
#[verifier::external_type_specification]
#[verifier::external_body]
pub struct ExGlobSet(globset::GlobSet);

/// What compiling `pattern` reports: parsing it with
/// `globset::GlobBuilder::new(pattern).literal_separator(false).build()`,
/// then building a `GlobSet` of it. `None` when both succeed, else the
/// error's text.
pub uninterp spec fn glob_build_error(pattern: Seq<char>) -> Option<Seq<char>>;

/// Whether the set compiled from `pattern` matches `path`
/// (`globset::GlobSet::is_match`).
pub uninterp spec fn glob_matches(pattern: Seq<char>, path: Seq<char>) -> bool;

/// Parses the glob with `GlobBuilder::build` and compiles it with
/// `GlobSetBuilder::build`, which reports every failure, a regular
/// expression over its size limit included, as an error; the outcome is
/// named `glob_build_error`.
#[verifier::external_body]
fn build_glob_matcher(pattern: &str) -> (r: Result<globset::GlobSet, String>)
    ensures
        match r {
            Ok(_) => glob_build_error(pattern@) is None,
            Err(e) => glob_build_error(pattern@) == Some(e@),
        },
{
    let glob = globset::GlobBuilder::new(pattern).literal_separator(false).build().map_err(|e| e.to_string())?;
    globset::GlobSetBuilder::new().add(glob).build().map_err(|e| e.to_string())
}

/// A glob pattern with its compiled matcher. The fields are private and
/// only `compile_glob` builds a value, so the matcher is always the one
/// compiled from the pattern.
pub struct CompiledGlob {
    pattern: String,
    matcher: globset::GlobSet,
}

impl CompiledGlob {
    /// The pattern the matcher was compiled from.
    pub closed spec fn pattern(&self) -> Seq<char> {
        self.pattern@
    }
}

/// Compiles a glob pattern (`*` also crosses `/`); an invalid pattern is
/// reported as `Invalid glob pattern: ` and the compiler's error.
pub fn compile_glob(pattern: &str) -> (r: Result<CompiledGlob, String>)
    ensures
        match r {
            Ok(g) => g.pattern() == pattern@ && glob_build_error(pattern@) is None,
            Err(m) => glob_build_error(pattern@) matches Some(e) && m@ == "Invalid glob pattern: "@ + e,
        },
{
    match build_glob_matcher(pattern) {
        Ok(matcher) => Ok(CompiledGlob { pattern: pattern.to_owned(), matcher }),
        Err(e) => {
            let mut m = chars_of("Invalid glob pattern: ");
            append_str(&mut m, e.as_str());
            Err(string_of(&m))
        },
    }
}

/// Calls `globset::GlobSet::is_match` with the compiled set; the result is
/// named `glob_matches` of the pattern it was compiled from.
#[verifier::external_body]
fn glob_is_match(g: &CompiledGlob, path: &str) -> (r: bool)
    ensures
        r == glob_matches(g.pattern(), path@),
{
    g.matcher.is_match(path)
}

/// What to do with a file met while walking the search path.
#[derive(Debug, PartialEq, Eq, Structural)]
pub enum GlobStep {
    /// The pattern does not match it.
    Skip,
    /// Keep it.
    Take,
    /// It matches but the cap is reached: stop, the results are truncated.
    Stop,
}

/// The step for a file at `relative` (its path under the search root) when
/// `taken` files were kept so far: files the pattern does not match are
/// skipped, matching ones kept until `GLOB_MAX_RESULTS` are, and the next
/// match stops the walk.
pub fn glob_step(g: &CompiledGlob, relative: &str, taken: usize) -> (r: GlobStep)
    ensures
        !glob_matches(g.pattern(), relative@) ==> r == GlobStep::Skip,
        glob_matches(g.pattern(), relative@) && taken < GLOB_MAX_RESULTS ==> r == GlobStep::Take,
        glob_matches(g.pattern(), relative@) && taken >= GLOB_MAX_RESULTS ==> r == GlobStep::Stop,
{
    if !glob_is_match(g, relative) {
        GlobStep::Skip
    } else if taken < GLOB_MAX_RESULTS {
        GlobStep::Take
    } else {
        GlobStep::Stop
    }
}

/// A matched file: path, the time it is ordered by (nanoseconds from the
/// Unix epoch, the epoch when unknown), and its time since the epoch as
/// seconds and nanoseconds when that is known.
#[derive(Debug)]
pub struct GlobCandidate {
    pub path: String,
    pub sort_time: i128,
    pub since_epoch: Option<(u64, u32)>,
}

/// `x` put after the elements of `s` (sorted newest first) that are at
/// least as new.
pub open spec fn insert_newest(s: Seq<(Seq<char>, i128, Option<(u64, u32)>)>, x: (Seq<char>, i128, Option<(u64, u32)>)) -> Seq<(Seq<char>, i128, Option<(u64, u32)>)>
    decreases s.len(),
{
    if s.len() == 0 {
        seq![x]
    } else if s.last().1 >= x.1 {
        s.push(x)
    } else {
        insert_newest(s.drop_last(), x).push(s.last())
    }
}

/// Stable sort, newest first.
pub open spec fn sort_newest(s: Seq<(Seq<char>, i128, Option<(u64, u32)>)>) -> Seq<(Seq<char>, i128, Option<(u64, u32)>)>
    decreases s.len(),
{
    if s.len() == 0 {
        seq![]
    } else {
        insert_newest(sort_newest(s.drop_last()), s.last())
    }
}

pub open spec fn candidate_view(c: GlobCandidate) -> (Seq<char>, i128, Option<(u64, u32)>) {
    (c.path@, c.sort_time, c.since_epoch)
}

/// RFC 3339 text `chrono` gives for a time since the epoch; `None` when it
/// is out of `chrono`'s range.
pub uninterp spec fn rfc3339(secs: u64, nanos: u32) -> Option<Seq<char>>;

/// Calls `chrono::DateTime::from_timestamp` with the seconds as `i64` and
/// `to_rfc3339` on the result; the result is named `rfc3339`.
#[verifier::external_body]
fn rfc3339_of(secs: u64, nanos: u32) -> (r: Option<String>)
    ensures
        match r {
            Some(s) => rfc3339(secs, nanos) == Some(s@),
            None => rfc3339(secs, nanos) is None,
        },
{
    chrono::DateTime::from_timestamp(secs as i64, nanos).map(|dt| dt.to_rfc3339())
}

/// The modification text reported for a file.
pub open spec fn modified_text(t: Option<(u64, u32)>) -> Option<Seq<char>> {
    match t {
        None => None,
        Some((s, n)) => Some(
            match rfc3339(s, n) {
                Some(x) => x,
                None => seq![],
            },
        ),
    }
}

proof fn lemma_sort_newest_len(s: Seq<(Seq<char>, i128, Option<(u64, u32)>)>)
    ensures
        sort_newest(s).len() == s.len(),
    decreases s.len(),
{
    if s.len() > 0 {
        lemma_sort_newest_len(s.drop_last());
        lemma_insert_newest_len(sort_newest(s.drop_last()), s.last());
    }
}

proof fn lemma_insert_newest_len(s: Seq<(Seq<char>, i128, Option<(u64, u32)>)>, x: (Seq<char>, i128, Option<(u64, u32)>))
    ensures
        insert_newest(s, x).len() == s.len() + 1,
    decreases s.len(),
{
    if s.len() > 0 && s.last().1 < x.1 {
        lemma_insert_newest_len(s.drop_last(), x);
    }
}

proof fn lemma_insert_newest_split(s: Seq<(Seq<char>, i128, Option<(u64, u32)>)>, x: (Seq<char>, i128, Option<(u64, u32)>), p: int)
    requires
        0 <= p <= s.len(),
        p == 0 || s[p - 1].1 >= x.1,
        forall|k: int| p <= k < s.len() ==> #[trigger] s[k].1 < x.1,
    ensures
        insert_newest(s, x) == s.take(p) + seq![x] + s.skip(p),
    decreases s.len(),
{
    if s.len() == 0 {
        assert(s.take(p) + seq![x] + s.skip(p) =~= seq![x]);
    } else if p == s.len() {
        assert(s.take(p) + seq![x] + s.skip(p) =~= s.push(x));
    } else {
        assert(s[s.len() - 1].1 < x.1);
        lemma_insert_newest_split(s.drop_last(), x, p);
        assert(s.drop_last().take(p) + seq![x] + s.drop_last().skip(p) + seq![s.last()] =~= s.take(p) + seq![x]
            + s.skip(p));
    }
}

/// The glob result for the matched files: sorted newest first (stably),
/// each with its modification time as RFC 3339 text when known.
pub fn glob_result(matched: Vec<GlobCandidate>, truncated: bool) -> (r: GlobResult)
    ensures
        r.total_matches == matched@.len(),
        r.truncated == truncated,
        r.files@.len() == matched@.len(),
        forall|i: int|
            0 <= i < r.files@.len() ==> (#[trigger] r.files@[i]).path@ == sort_newest(matched@.map_values(|c: GlobCandidate| candidate_view(c)))[i].0
                && opt_view(r.files@[i].modified) == modified_text(sort_newest(matched@.map_values(|c: GlobCandidate| candidate_view(c)))[i].2),
{
    let ghost mv = matched@.map_values(|c: GlobCandidate| candidate_view(c));
    let total = matched.len();
    let mut sorted: Vec<GlobCandidate> = Vec::new();
    let mut i: usize = 0;
    assert(mv.take(0) =~= Seq::<(Seq<char>, i128, Option<(u64, u32)>)>::empty());
    assert(sorted@.map_values(|c: GlobCandidate| candidate_view(c)) =~= Seq::<(Seq<char>, i128, Option<(u64, u32)>)>::empty());
    while i < matched.len()
        invariant
            i <= matched.len(),
            mv == matched@.map_values(|c: GlobCandidate| candidate_view(c)),
            sorted@.map_values(|c: GlobCandidate| candidate_view(c)) == sort_newest(mv.take(i as int)),
        decreases matched.len() - i,
    {
        let x = GlobCandidate { path: matched[i].path.clone(), sort_time: matched[i].sort_time, since_epoch: matched[i].since_epoch };
        assert(candidate_view(x) == mv[i as int]);
        let ghost sv = sorted@.map_values(|c: GlobCandidate| candidate_view(c));
        let mut p = sorted.len();
        while p > 0 && sorted[p - 1].sort_time < x.sort_time
            invariant
                p <= sorted.len(),
                sv == sorted@.map_values(|c: GlobCandidate| candidate_view(c)),
                forall|k: int| p <= k < sorted.len() ==> #[trigger] sv[k].1 < x.sort_time,
            decreases p,
        {
            p = p - 1;
        }
        proof {
            lemma_insert_newest_split(sv, candidate_view(x), p as int);
            assert(mv.take(i + 1).drop_last() =~= mv.take(i as int));
        }
        sorted.insert(p, x);
        proof {
            assert(sorted@.map_values(|c: GlobCandidate| candidate_view(c)) =~= sv.take(p as int) + seq![candidate_view(x)] + sv.skip(p as int));
        }
        i = i + 1;
    }
    assert(mv.take(matched@.len() as int) =~= mv);
    let ghost srt = sort_newest(mv);
    proof {
        lemma_sort_newest_len(mv);
    }
    let mut files: Vec<GlobFileEntry> = Vec::new();
    let mut k: usize = 0;
    while k < sorted.len()
        invariant
            k <= sorted.len(),
            sorted@.len() == matched@.len(),
            srt == sorted@.map_values(|c: GlobCandidate| candidate_view(c)),
            files@.len() == k,
            forall|j: int|
                0 <= j < k ==> (#[trigger] files@[j]).path@ == srt[j].0 && opt_view(files@[j].modified) == modified_text(srt[j].2),
        decreases sorted.len() - k,
    {
        let modified = match sorted[k].since_epoch {
            None => None,
            Some((s, n)) => match rfc3339_of(s, n) {
                Some(t) => Some(t),
                None => Some(String::new()),
            },
        };
        assert(srt[k as int] == candidate_view(sorted@[k as int]));
        files.push(GlobFileEntry { path: sorted[k].path.clone(), modified });
        k = k + 1;
    }
    GlobResult { files, total_matches: total, truncated }
}

// ---------------------------------------------------------------------------
// Grep
// ---------------------------------------------------------------------------

/// Most results a grep search reports by default.
pub const GREP_DEFAULT_MAX_RESULTS: usize = 1000;

/// What a grep search reports.
#[derive(Clone, Copy, PartialEq, Eq, Structural, Debug)]
pub enum OutputMode {
    Content,
    FilesWithMatches,
    Count,
}

impl Default for OutputMode {
    fn default() -> (r: Self)
        ensures
            r == OutputMode::FilesWithMatches,
    {
        OutputMode::FilesWithMatches
    }
}

/// Arguments of the grep tool.
#[derive(Debug)]
pub struct GrepArgs {
    pub pattern: String,
    pub path: Option<String>,
    pub glob: Option<String>,
    pub file_type: Option<String>,
    pub case_insensitive: Option<bool>,
    pub context_before: Option<usize>,
    pub context_after: Option<usize>,
    pub context: Option<usize>,
    pub output_mode: Option<OutputMode>,
    pub max_results: Option<usize>,
}

/// A matching or context line.
#[derive(Debug)]
pub struct GrepMatch {
    pub path: String,
    pub line_number: Option<u64>,
    pub content: String,
    pub is_context: bool,
}

/// Matches in a file.
#[derive(Debug)]
pub struct GrepCountEntry {
    pub path: String,
    pub count: usize,
}

/// One reported item of a grep search.
#[derive(Debug)]
pub enum GrepItem {
    Line(GrepMatch),
    File(String),
    Count(GrepCountEntry),
}

/// The grep tool.
#[derive(Debug)]
pub struct GrepTool;

impl GrepTool {
    pub fn new() -> (r: Self) {
        GrepTool
    }

    /// The tool's registered name.
    pub fn name(&self) -> (r: &'static str)
        ensures
            r@ == "Grep"@,
    {
        "Grep"
    }

    /// What the tool does, for the model.
    pub fn description(&self) -> (r: &'static str)
        ensures
            r@ == "A powerful search tool built on ripgrep. Supports regex patterns, file type filtering, and multiple output modes."@,
    {
        "A powerful search tool built on ripgrep. Supports regex patterns, file type filtering, and multiple output modes."
    }
}

/// The compiled regular expression matcher of `grep_regex`, carried
/// through opaque.
#[verifier::external_type_specification]
#[verifier::external_body]
pub struct ExRegexMatcher(grep_regex::RegexMatcher);

/// What `RegexMatcherBuilder::new().case_insensitive(ci).build(pattern)`
/// reports: `None` when the pattern compiles, else its error's text.
pub uninterp spec fn regex_build_error(pattern: Seq<char>, case_insensitive: bool) -> Option<Seq<char>>;

/// Calls `RegexMatcherBuilder::build` with case-insensitivity set as
/// given; the outcome is named `regex_build_error`.
#[verifier::external_body]
fn build_regex_matcher(pattern: &str, case_insensitive: bool) -> (r: Result<grep_regex::RegexMatcher, String>)
    ensures
        match r {
            Ok(_) => regex_build_error(pattern@, case_insensitive) is None,
            Err(e) => regex_build_error(pattern@, case_insensitive) == Some(e@),
        },
{
    let mut builder = grep_regex::RegexMatcherBuilder::new();
    builder.case_insensitive(case_insensitive);
    builder.build(pattern).map_err(|e| e.to_string())
}

/// The matcher of the grep tool's pattern, case-insensitive when asked; an
/// invalid pattern is reported as `Invalid regex pattern: ` and the
/// compiler's error.
pub fn compile_grep_pattern(args: &GrepArgs) -> (r: Result<grep_regex::RegexMatcher, String>)
    ensures
        ({
            let ci = args.case_insensitive == Some(true);
            match r {
                Ok(_) => regex_build_error(args.pattern@, ci) is None,
                Err(m) => regex_build_error(args.pattern@, ci) matches Some(e) && m@ == "Invalid regex pattern: "@ + e,
            }
        }),
{
    let ci = match args.case_insensitive {
        Some(b) => b,
        None => false,
    };
    match build_regex_matcher(args.pattern.as_str(), ci) {
        Ok(m) => Ok(m),
        Err(e) => {
            let mut msg = chars_of("Invalid regex pattern: ");
            append_str(&mut msg, e.as_str());
            Err(string_of(&msg))
        },
    }
}

/// Context lines before and after a match: `context` when given, else the
/// specific setting, else none.
pub fn grep_context_lines(args: &GrepArgs) -> (r: (usize, usize))
    ensures
        r.0 == match args.context {
            Some(c) => c,
            None => match args.context_before {
                Some(b) => b,
                None => 0,
            },
        },
        r.1 == match args.context {
            Some(c) => c,
            None => match args.context_after {
                Some(a) => a,
                None => 0,
            },
        },
{
    let before = match args.context {
        Some(c) => c,
        None => match args.context_before {
            Some(b) => b,
            None => 0,
        },
    };
    let after = match args.context {
        Some(c) => c,
        None => match args.context_after {
            Some(a) => a,
            None => 0,
        },
    };
    (before, after)
}

/// The items a grep search reports in its mode: the collected lines, the
/// files with matches, or the per-file counts; at most `max_results` of
/// them, with the total and whether some were left out.
pub fn grep_items(mode: OutputMode, lines: Vec<GrepMatch>, files: Vec<String>, counts: Vec<GrepCountEntry>, max_results: usize) -> (r: (Vec<GrepItem>, usize, bool))
    ensures
        r.1 == match mode {
            OutputMode::Content => lines@.len(),
            OutputMode::FilesWithMatches => files@.len(),
            OutputMode::Count => counts@.len(),
        },
        r.2 == (r.1 > max_results),
        r.0@.len() == if r.1 > max_results { max_results as nat } else { r.1 as nat },
        forall|i: int| 0 <= i < r.0@.len() ==> match mode {
            OutputMode::Content => (#[trigger] r.0@[i]) matches GrepItem::Line(m) && m == lines@[i],
            OutputMode::FilesWithMatches => r.0@[i] matches GrepItem::File(f) && f == files@[i],
            OutputMode::Count => r.0@[i] matches GrepItem::Count(c) && c == counts@[i],
        },
{
    let total = match mode {
        OutputMode::Content => lines.len(),
        OutputMode::FilesWithMatches => files.len(),
        OutputMode::Count => counts.len(),
    };
    let take = if total > max_results { max_results } else { total };
    let mut out: Vec<GrepItem> = Vec::new();
    let ghost lv = lines@;
    let ghost fv = files@;
    let ghost cv = counts@;
    let mut lines = lines;
    let mut files = files;
    let mut counts = counts;
    let mut i: usize = 0;
    while i < take
        invariant
            i <= take <= total,
            total == match mode {
                OutputMode::Content => lv.len(),
                OutputMode::FilesWithMatches => fv.len(),
                OutputMode::Count => cv.len(),
            },
            out@.len() == i,
            lines@.len() == lv.len() - i || mode != OutputMode::Content,
            files@.len() == fv.len() - i || mode != OutputMode::FilesWithMatches,
            counts@.len() == cv.len() - i || mode != OutputMode::Count,
            mode == OutputMode::Content ==> lines@ == lv.skip(i as int),
            mode == OutputMode::FilesWithMatches ==> files@ == fv.skip(i as int),
            mode == OutputMode::Count ==> counts@ == cv.skip(i as int),
            forall|j: int| 0 <= j < i ==> match mode {
                OutputMode::Content => (#[trigger] out@[j]) matches GrepItem::Line(m) && m == lv[j],
                OutputMode::FilesWithMatches => out@[j] matches GrepItem::File(f) && f == fv[j],
                OutputMode::Count => out@[j] matches GrepItem::Count(c) && c == cv[j],
            },
        decreases take - i,
    {
        match mode {
            OutputMode::Content => {
                let m = lines.remove(0);
                assert(lv.skip(i + 1) =~= lv.skip(i as int).drop_first());
                out.push(GrepItem::Line(m));
            },
            OutputMode::FilesWithMatches => {
                let f = files.remove(0);
                assert(fv.skip(i + 1) =~= fv.skip(i as int).drop_first());
                out.push(GrepItem::File(f));
            },
            OutputMode::Count => {
                let c = counts.remove(0);
                assert(cv.skip(i + 1) =~= cv.skip(i as int).drop_first());
                out.push(GrepItem::Count(c));
            },
        }
        i = i + 1;
    }
    (out, total, total > max_results)
}

/// A line a search reported: its file, its number, its text decoded
/// leniently without trailing whitespace, and whether it is context around
/// a match.
pub fn sink_entry(path: &str, bytes: &[u8], line_number: Option<u64>, is_context: bool) -> (r: GrepMatch)
    ensures
        r.path@ == path@,
        r.line_number == line_number,
        r.content@ == crate::text::trim_end(crate::bash::utf8_lossy(bytes@)),
        r.is_context == is_context,
{
    let text = crate::bash::lossy_text(bytes);
    let cs = chars_of(text.as_str());
    let trimmed = crate::text::trim_end_vec(&cs);
    GrepMatch { path: path.to_owned(), line_number, content: string_of(&trimmed), is_context }
}

/// `value.as_u64()`: a number written as a `u64`.
pub open spec fn json_u64(v: crate::registry::JsonValue) -> Option<u64> {
    match v {
        crate::registry::JsonValue::Number(t) => crate::upload::parse_u64_spec(t@),
        _ => None,
    }
}

/// The text of a JSON string.
pub open spec fn json_str(v: Option<crate::registry::JsonValue>) -> Option<Seq<char>> {
    match v {
        Some(crate::registry::JsonValue::Str(s)) => Some(s@),
        _ => None,
    }
}

/// A match of the structural search as `(file, line, column, text)`: the
/// item needs a string `file` and a `range` with a `start` that has `line`
/// and `column`; numbers that are not `u64` count as zero, a missing text
/// as empty.
pub open spec fn ast_match_of(item: crate::registry::JsonValue) -> Option<(Seq<char>, u64, u64, Seq<char>)> {
    let file = json_str(crate::registry::json_get(item, "file"@));
    let range = crate::registry::json_get(item, "range"@);
    match (file, range) {
        (Some(f), Some(r)) => match crate::registry::json_get(r, "start"@) {
            Some(st) => match (crate::registry::json_get(st, "line"@), crate::registry::json_get(st, "column"@)) {
                (Some(l), Some(c)) => Some(
                    (
                        f,
                        match json_u64(l) {
                            Some(n) => n,
                            None => 0,
                        },
                        match json_u64(c) {
                            Some(n) => n,
                            None => 0,
                        },
                        match json_str(crate::registry::json_get(item, "text"@)) {
                            Some(t) => t,
                            None => seq![],
                        },
                    ),
                ),
                _ => None,
            },
            None => None,
        },
        _ => None,
    }
}

/// The matches among the items of the search's JSON output, in order.
pub open spec fn ast_matches_of(items: Seq<crate::registry::JsonValue>) -> Seq<(Seq<char>, u64, u64, Seq<char>)>
    decreases items.len(),
{
    if items.len() == 0 {
        seq![]
    } else {
        let prev = ast_matches_of(items.drop_last());
        match ast_match_of(items.last()) {
            Some(m) => prev.push(m),
            None => prev,
        }
    }
}

/// A match as its fields.
pub open spec fn ast_match_view(m: AstGrepMatch) -> (Seq<char>, u64, u64, Seq<char>) {
    (m.file@, m.line, m.column, m.text@)
}

fn json_u64_exec(v: &crate::registry::JsonValue) -> (r: u64)
    ensures
        r == match json_u64(*v) {
            Some(n) => n,
            None => 0,
        },
{
    match v {
        crate::registry::JsonValue::Number(t) => match crate::upload::parse_u64(t.as_str()) {
            Some(n) => n,
            None => 0,
        },
        _ => 0,
    }
}

fn json_str_exec(v: Option<&crate::registry::JsonValue>) -> (r: Option<String>)
    ensures
        match r {
            Some(s) => json_str(match v {
                Some(x) => Some(*x),
                None => None,
            }) == Some(s@),
            None => json_str(match v {
                Some(x) => Some(*x),
                None => None,
            }) is None,
        },
{
    match v {
        Some(crate::registry::JsonValue::Str(s)) => Some(s.clone()),
        _ => None,
    }
}

/// The matches reported by the structural search, from its JSON output
/// (an array; anything else has none).
pub fn ast_grep_matches(raw: &crate::registry::JsonValue) -> (r: Vec<AstGrepMatch>)
    ensures
        r@.map_values(|m: AstGrepMatch| ast_match_view(m)) == match *raw {
            crate::registry::JsonValue::Array(items) => ast_matches_of(items@),
            _ => seq![],
        },
{
    let mut out: Vec<AstGrepMatch> = Vec::new();
    match raw {
        crate::registry::JsonValue::Array(items) => {
            let mut i: usize = 0;
            assert(items@.take(0) =~= Seq::<crate::registry::JsonValue>::empty());
            while i < items.len()
                invariant
                    i <= items.len(),
                    out@.map_values(|m: AstGrepMatch| ast_match_view(m)) == ast_matches_of(items@.take(i as int)),
                decreases items.len() - i,
            {
                proof {
                    assert(items@.take(i + 1).drop_last() =~= items@.take(i as int));
                    assert(items@.take(i + 1).last() == items@[i as int]);
                }
                let item = &items[i];
                let file = json_str_exec(crate::registry::json_get_exec(item, "file"));
                let range = crate::registry::json_get_exec(item, "range");
                match (file, range) {
                    (Some(f), Some(r)) => match crate::registry::json_get_exec(r, "start") {
                        Some(st) => match (crate::registry::json_get_exec(st, "line"), crate::registry::json_get_exec(st, "column")) {
                            (Some(l), Some(c)) => {
                                let text = match json_str_exec(crate::registry::json_get_exec(item, "text")) {
                                    Some(t) => t,
                                    None => String::new(),
                                };
                                let m = AstGrepMatch { file: f, line: json_u64_exec(l), column: json_u64_exec(c), text };
                                let ghost before = out@.map_values(|m: AstGrepMatch| ast_match_view(m));
                                out.push(m);
                                assert(out@.map_values(|m: AstGrepMatch| ast_match_view(m)) =~= before.push(
                                    ast_match_view(m),
                                ));
                            },
                            _ => {},
                        },
                        None => {},
                    },
                    _ => {},
                }
                i = i + 1;
            }
            assert(items@.take(i as int) =~= items@);
        },
        _ => {
            assert(out@.map_values(|m: AstGrepMatch| ast_match_view(m)) =~= Seq::<(Seq<char>, u64, u64, Seq<char>)>::empty());
        },
    }
    out
}

} // verus!
