//! The read tool's logic: file-kind classification by extension and by a
//! byte sample, the large-file gates, pagination, and the rendering of file
//! lines and directory listings.
use vstd::prelude::*;
use crate::edit::{snippet, snippet_spec};
use crate::text::{append_chars, append_str, chars_eq, chars_of, decimal, decimal_vec, join, join_vec, lemma_views_push, string_of, views};

verus! {

/// Line limit applied when the caller gives none.
pub const DEFAULT_LINE_LIMIT: usize = 2000;

/// Files larger than this many bytes are refused.
pub const HARD_MAX_BYTES: u64 = 10485760;

/// Longest line shown in full, in bytes.
pub const MAX_LINE_LENGTH: usize = 2000;

/// Number of bytes sampled for binary detection.
pub const BINARY_CHECK_SIZE: usize = 4096;

// ---------------------------------------------------------------------------
// Paths
// ---------------------------------------------------------------------------

/// The extension `std::path::Path::extension` gives for a path.
pub uninterp spec fn path_extension(p: Seq<char>) -> Option<Seq<char>>;

/// The lowercase form `str::to_lowercase` gives.
pub uninterp spec fn lowercase(s: Seq<char>) -> Seq<char>;

/// Whether `std::path::Path::is_absolute` holds of a path.
pub uninterp spec fn path_is_absolute(p: Seq<char>) -> bool;

/// Calls `std::path::Path::extension` on the path and converts the result to
/// a `String`; the result is named `path_extension`.
#[verifier::external_body]
fn extension_of(path: &str) -> (r: Option<String>)
    ensures
        match r {
            Some(e) => path_extension(path@) == Some(e@),
            None => path_extension(path@) is None,
        },
{
    std::path::Path::new(path).extension().and_then(|e| e.to_str()).map(|e| e.to_owned())
}

/// Calls `str::to_lowercase`; the result is named `lowercase`.
#[verifier::external_body]
pub(crate) fn to_lowercase(s: &str) -> (r: String)
    ensures
        r@ == lowercase(s@),
{
    s.to_lowercase()
}

/// Calls `std::path::Path::is_absolute`; the result is named
/// `path_is_absolute`.
#[verifier::external_body]
pub(crate) fn is_absolute(path: &str) -> (r: bool)
    ensures
        r == path_is_absolute(path@),
{
    std::path::Path::new(path).is_absolute()
}

/// Image extensions, lowercase.
pub open spec fn image_extensions() -> Seq<Seq<char>> {
    seq!["png"@, "jpg"@, "jpeg"@, "gif"@, "webp"@, "bmp"@, "ico"@]
}

/// Extensions of files known to be binary, lowercase.
pub open spec fn binary_extensions() -> Seq<Seq<char>> {
    seq![
        "zip"@, "tar"@, "gz"@, "exe"@, "dll"@, "so"@, "class"@, "jar"@, "war"@, "7z"@, "doc"@, "docx"@,
        "xls"@, "xlsx"@, "ppt"@, "pptx"@, "odt"@, "ods"@, "odp"@, "bin"@, "dat"@, "obj"@, "o"@, "a"@,
        "lib"@, "wasm"@, "pyc"@, "pyo"@,
    ]
}

/// The path's extension, lowercased, is in `list`.
pub open spec fn ext_in(path: Seq<char>, list: Seq<Seq<char>>) -> bool {
    match path_extension(path) {
        Some(e) => list.contains(lowercase(e)),
        None => false,
    }
}

/// ASCII case-insensitive equality (`eq_ignore_ascii_case`).
pub open spec fn ascii_lower(c: char) -> u32 {
    if 'A' <= c && c <= 'Z' {
        ((c as u32) + 32) as u32
    } else {
        c as u32
    }
}

pub open spec fn eq_ignore_ascii_case(a: Seq<char>, b: Seq<char>) -> bool {
    a.len() == b.len() && forall|i: int| 0 <= i < a.len() ==> ascii_lower(#[trigger] a[i]) == ascii_lower(b[i])
}

/// The path's extension is `ext`, ignoring ASCII case.
pub open spec fn ext_is(path: Seq<char>, ext: Seq<char>) -> bool {
    match path_extension(path) {
        Some(e) => eq_ignore_ascii_case(e, ext),
        None => false,
    }
}

fn ascii_lower_exec(c: char) -> (r: u32)
    ensures
        r == ascii_lower(c),
{
    if 'A' <= c && c <= 'Z' {
        (c as u32) + 32
    } else {
        c as u32
    }
}

fn eq_ignore_ascii_case_exec(a: &[char], b: &[char]) -> (r: bool)
    ensures
        r == eq_ignore_ascii_case(a@, b@),
{
    if a.len() != b.len() {
        return false;
    }
    let mut i: usize = 0;
    while i < a.len()
        invariant
            i <= a.len(),
            a.len() == b.len(),
            forall|k: int| 0 <= k < i ==> ascii_lower(#[trigger] a@[k]) == ascii_lower(b@[k]),
        decreases a.len() - i,
    {
        if ascii_lower_exec(a[i]) != ascii_lower_exec(b[i]) {
            return false;
        }
        i = i + 1;
    }
    true
}

fn list_contains(list: &Vec<Vec<char>>, x: &[char]) -> (r: bool)
    ensures
        r == views(list@).contains(x@),
{
    let mut i: usize = 0;
    while i < list.len()
        invariant
            i <= list.len(),
            forall|k: int| 0 <= k < i ==> views(list@)[k] != x@,
        decreases list.len() - i,
    {
        if chars_eq(&list[i], x) {
            assert(views(list@)[i as int] == x@);
            return true;
        }
        i = i + 1;
    }
    false
}

fn strs_to_lines(items: &[&str]) -> (r: Vec<Vec<char>>)
    ensures
        views(r@) == items@.map_values(|s: &str| s@),
{
    let mut out: Vec<Vec<char>> = Vec::new();
    let mut i: usize = 0;
    while i < items.len()
        invariant
            i <= items.len(),
            views(out@) == items@.map_values(|s: &str| s@).take(i as int),
        decreases items.len() - i,
    {
        let c = chars_of(items[i]);
        proof {
            lemma_views_push(out@, c);
            assert(items@.map_values(|s: &str| s@).take(i + 1) =~= items@.map_values(|s: &str| s@).take(i as int).push(c@));
        }
        out.push(c);
        i = i + 1;
    }
    assert(items@.map_values(|s: &str| s@).take(items@.len() as int) =~= items@.map_values(|s: &str| s@));
    out
}

fn ext_in_exec(path: &str, list: &Vec<Vec<char>>) -> (r: bool)
    ensures
        r == match path_extension(path@) {
            Some(e) => views(list@).contains(lowercase(e)),
            None => false,
        },
{
    match extension_of(path) {
        None => false,
        Some(e) => {
            let l = to_lowercase(e.as_str());
            list_contains(list, &chars_of(l.as_str()))
        },
    }
}

/// The path has an image extension (not SVG, which is text).
pub fn is_image_extension(path: &str) -> (r: bool)
    ensures
        r == ext_in(path@, image_extensions()),
{
    let list = strs_to_lines(&["png", "jpg", "jpeg", "gif", "webp", "bmp", "ico"]);
    proof {
        assert(views(list@) =~= image_extensions());
    }
    ext_in_exec(path, &list)
}

/// The path has an extension of a known binary format.
pub fn is_binary_extension(path: &str) -> (r: bool)
    ensures
        r == ext_in(path@, binary_extensions()),
{
    let list = strs_to_lines(
        &[
            "zip", "tar", "gz", "exe", "dll", "so", "class", "jar", "war", "7z", "doc", "docx", "xls", "xlsx",
            "ppt", "pptx", "odt", "ods", "odp", "bin", "dat", "obj", "o", "a", "lib", "wasm", "pyc", "pyo",
        ],
    );
    proof {
        assert(views(list@) =~= binary_extensions());
    }
    ext_in_exec(path, &list)
}

fn ext_is_exec(path: &str, ext: &str) -> (r: bool)
    ensures
        r == ext_is(path@, ext@),
{
    match extension_of(path) {
        None => false,
        Some(e) => eq_ignore_ascii_case_exec(&chars_of(e.as_str()), &chars_of(ext)),
    }
}

/// The path is an SVG file.
pub fn is_svg(path: &str) -> (r: bool)
    ensures
        r == ext_is(path@, "svg"@),
{
    ext_is_exec(path, "svg")
}

/// The path is a PDF file.
pub fn is_pdf(path: &str) -> (r: bool)
    ensures
        r == ext_is(path@, "pdf"@),
{
    ext_is_exec(path, "pdf")
}

// ---------------------------------------------------------------------------
// Binary detection
// ---------------------------------------------------------------------------

/// Control bytes other than tab, newline, vertical tab, form feed and
/// carriage return.
pub open spec fn non_printable(b: u8) -> bool {
    b < 9 || (b > 13 && b < 32)
}

/// Number of non-printable bytes.
pub open spec fn non_printable_count(s: Seq<u8>) -> nat
    decreases s.len(),
{
    if s.len() == 0 {
        0
    } else {
        non_printable_count(s.drop_last()) + if non_printable(s.last()) { 1nat } else { 0nat }
    }
}

/// A sample looks binary: it holds a zero byte, or more than 30% of its
/// bytes are non-printable.
pub open spec fn looks_binary(s: Seq<u8>) -> bool {
    s.contains(0u8) || (s.len() > 0 && 10 * non_printable_count(s) > 3 * s.len())
}

/// A byte is non-printable.
pub fn is_non_printable(b: u8) -> (r: bool)
    ensures
        r == non_printable(b),
{
    b < 9 || (b > 13 && b < 32)
}

/// Whether a byte sample looks binary.
pub fn sample_looks_binary(sample: &[u8]) -> (r: bool)
    ensures
        r == looks_binary(sample@),
{
    let mut has_null = false;
    let mut count: usize = 0;
    let mut i: usize = 0;
    assert(sample@.take(0) =~= Seq::<u8>::empty());
    while i < sample.len()
        invariant
            i <= sample.len(),
            count <= i,
            count == non_printable_count(sample@.take(i as int)),
            has_null <==> (exists|k: int| 0 <= k < i && sample@[k] == 0u8),
        decreases sample.len() - i,
    {
        proof {
            assert(sample@.take(i + 1).drop_last() =~= sample@.take(i as int));
            assert(sample@.take(i + 1).last() == sample@[i as int]);
        }
        if sample[i] == 0 {
            has_null = true;
        }
        if is_non_printable(sample[i]) {
            count = count + 1;
        }
        i = i + 1;
    }
    assert(sample@.take(sample@.len() as int) =~= sample@);
    assert(has_null == sample@.contains(0u8));
    has_null || (sample.len() > 0 && 10 * (count as u128) > 3 * (sample.len() as u128))
}

/// How a file is read after binary detection.
#[derive(Debug)]
pub enum BinaryDetection {
    Text,
    Image,
    Reject(String),
    Svg,
}

/// Error for a binary file.
pub open spec fn binary_msg(len: nat) -> Seq<char> {
    "Binary file detected ("@ + decimal(len) + " bytes). Use the bash tool to inspect binary files."@
}

fn binary_msg_exec(len: u64) -> (r: String)
    ensures
        r@ == binary_msg(len as nat),
{
    let mut m = chars_of("Binary file detected (");
    append_chars(&mut m, &decimal_vec(len));
    append_str(&mut m, " bytes). Use the bash tool to inspect binary files.");
    string_of(&m)
}

/// Classification of a file from its first bytes: text when the sample
/// does not look binary, else an image or SVG by extension, else refused.
pub fn classify_sample(sample: &[u8], path: &str, metadata_len: u64) -> (r: BinaryDetection)
    ensures
        !looks_binary(sample@) ==> r is Text,
        looks_binary(sample@) && ext_in(path@, image_extensions()) ==> r is Image,
        looks_binary(sample@) && !ext_in(path@, image_extensions()) && ext_is(path@, "svg"@) ==> r is Svg,
        looks_binary(sample@) && !ext_in(path@, image_extensions()) && !ext_is(path@, "svg"@) ==> (r matches BinaryDetection::Reject(m) && m@ == binary_msg(metadata_len as nat)),
{
    if sample_looks_binary(sample) {
        if is_image_extension(path) {
            return BinaryDetection::Image;
        }
        if is_svg(path) {
            return BinaryDetection::Svg;
        }
        return BinaryDetection::Reject(binary_msg_exec(metadata_len));
    }
    BinaryDetection::Text
}

/// Refusal of a file with a binary extension that is neither an image nor
/// an SVG.
pub fn reject_binary_extension(path: &str, metadata_len: u64) -> (r: Option<Result<String, String>>)
    ensures
        (ext_in(path@, binary_extensions()) && !ext_in(path@, image_extensions()) && !ext_is(path@, "svg"@)) ==> (r matches Some(Err(m)) && m@ == binary_msg(metadata_len as nat)),
        !(ext_in(path@, binary_extensions()) && !ext_in(path@, image_extensions()) && !ext_is(path@, "svg"@)) ==> r is None,
{
    if is_binary_extension(path) && !is_image_extension(path) && !is_svg(path) {
        return Some(Err(binary_msg_exec(metadata_len)));
    }
    None
}

// ---------------------------------------------------------------------------
// Gates
// ---------------------------------------------------------------------------

/// Error for a relative path.
pub open spec fn relative_path_msg(path: Seq<char>) -> Seq<char> {
    "file_path must be an absolute path, got: "@ + path
}

/// Refusal of a relative path.
pub fn check_absolute(file_path: &str) -> (r: Result<(), String>)
    ensures
        path_is_absolute(file_path@) ==> r is Ok,
        !path_is_absolute(file_path@) ==> (r matches Err(m) && m@ == relative_path_msg(file_path@)),
{
    if !is_absolute(file_path) {
        let mut m = chars_of("file_path must be an absolute path, got: ");
        append_str(&mut m, file_path);
        return Err(string_of(&m));
    }
    Ok(())
}

/// Error for a file above the byte cap.
pub open spec fn too_large_msg(path: Seq<char>, len: nat) -> Seq<char> {
    "File "@ + path + " is too large to read in-context ("@ + decimal(len) + " bytes, max: "@ + decimal(
        HARD_MAX_BYTES as nat,
    ) + "). Use RipGrep with path=\""@ + path
        + "\" and a regex pattern to search, or spawn self_agent with a focused question to summarize."@
}

/// Refusal of a regular file above the byte cap.
pub fn check_size(file_path: &str, is_file: bool, len: u64) -> (r: Result<(), String>)
    ensures
        (is_file && len > HARD_MAX_BYTES) ==> (r matches Err(m) && m@ == too_large_msg(file_path@, len as nat)),
        !(is_file && len > HARD_MAX_BYTES) ==> r is Ok,
{
    if is_file && len > HARD_MAX_BYTES {
        let mut m = chars_of("File ");
        append_str(&mut m, file_path);
        append_str(&mut m, " is too large to read in-context (");
        append_chars(&mut m, &decimal_vec(len));
        append_str(&mut m, " bytes, max: ");
        append_chars(&mut m, &decimal_vec(HARD_MAX_BYTES));
        append_str(&mut m, "). Use RipGrep with path=\"");
        append_str(&mut m, file_path);
        append_str(&mut m, "\" and a regex pattern to search, or spawn self_agent with a focused question to summarize.");
        return Err(string_of(&m));
    }
    Ok(())
}

/// What the read tool does with a path once its metadata is known.
#[derive(Debug, Clone, Copy, PartialEq, Eq, Structural)]
pub enum ReadPlan {
    /// List the directory.
    Directory,
    /// Hand the PDF back whole.
    Pdf,
    /// Sample the content to tell text from binary.
    Sample,
}

/// The next step of a read: a regular file above the byte cap is refused;
/// a directory is listed; a file with a binary extension (not an image or
/// SVG) is refused; a PDF is returned whole; anything else is sampled.
pub fn plan_read(file_path: &str, is_file: bool, is_dir: bool, len: u64) -> (r: Result<ReadPlan, String>)
    ensures
        (is_file && len > HARD_MAX_BYTES) ==> (r matches Err(m) && m@ == too_large_msg(file_path@, len as nat)),
        !(is_file && len > HARD_MAX_BYTES) && is_dir ==> r == Ok::<ReadPlan, String>(ReadPlan::Directory),
        !(is_file && len > HARD_MAX_BYTES) && !is_dir && (ext_in(file_path@, binary_extensions()) && !ext_in(
            file_path@,
            image_extensions(),
        ) && !ext_is(file_path@, "svg"@)) ==> (r matches Err(m) && m@ == binary_msg(len as nat)),
        !(is_file && len > HARD_MAX_BYTES) && !is_dir && !(ext_in(file_path@, binary_extensions()) && !ext_in(
            file_path@,
            image_extensions(),
        ) && !ext_is(file_path@, "svg"@)) ==> r == Ok::<ReadPlan, String>(
            if ext_is(file_path@, "pdf"@) {
                ReadPlan::Pdf
            } else {
                ReadPlan::Sample
            },
        ),
{
    match check_size(file_path, is_file, len) {
        Err(m) => {
            return Err(m);
        },
        Ok(()) => {},
    }
    if is_dir {
        return Ok(ReadPlan::Directory);
    }
    match reject_binary_extension(file_path, len) {
        Some(Err(m)) => {
            return Err(m);
        },
        _ => {},
    }
    if is_pdf(file_path) {
        Ok(ReadPlan::Pdf)
    } else {
        Ok(ReadPlan::Sample)
    }
}

// ---------------------------------------------------------------------------
// Rendering
// ---------------------------------------------------------------------------

/// Arguments of the read tool.
#[derive(Debug)]
pub struct ReadArgs {
    pub file_path: String,
    pub offset: Option<usize>,
    pub limit: Option<usize>,
}

/// Result reported by the read tool.
#[derive(Debug)]
pub struct ReadResult {
    pub content: String,
    pub total_lines: usize,
    pub lines_read: usize,
    pub truncated: bool,
}

/// Model of a result: content, total, read, truncated.
pub open spec fn read_result_view(r: ReadResult) -> (Seq<char>, nat, nat, bool) {
    (r.content@, r.total_lines as nat, r.lines_read as nat, r.truncated)
}

/// The window of a listing of `total` items: start and end.
pub open spec fn window(total: nat, offset: nat, limit: nat) -> (nat, nat) {
    let start: nat = if offset > 0 { (offset - 1) as nat } else { 0 };
    let end: nat = if start + limit < total { start + limit } else { total };
    (start, end)
}

/// Error for a file over the default limit read without a limit.
pub open spec fn file_gate_msg(path: Seq<char>, total: nat) -> Seq<char> {
    "File "@ + path + " has "@ + decimal(total) + " lines (default limit: "@ + decimal(DEFAULT_LINE_LIMIT as nat)
        + "). Choose one:\n- Ranged read: call Read again with explicit offset and limit (e.g., offset=1, limit=500)\n- Search: call RipGrep with path=\""@
        + path + "\" and a regex pattern to find specific content\n- Summarize: spawn self_agent with a focused question so the file stays out of this context"@
}

/// Error for an offset past the end.
pub open spec fn offset_msg(offset: nat, total: nat) -> Seq<char> {
    "Offset "@ + decimal(offset) + " is out of range for this file ("@ + decimal(total) + " lines)"@
}

/// One rendered line: its number, `: `, the line (cut at the maximum
/// length with `...`), and a newline.
pub open spec fn rendered_line(n: nat, line: Seq<char>) -> Option<Seq<char>> {
    match snippet_spec(line, MAX_LINE_LENGTH as nat) {
        Some(d) => Some(decimal(n) + ": "@ + d + "\n"@),
        None => None,
    }
}

/// The rendered lines `lines[from..to]`, numbered from `from + 1`; `None`
/// when a line is cut inside a character.
pub open spec fn rendered_lines(lines: Seq<Seq<char>>, from: int, to: int) -> Option<Seq<char>>
    decreases to - from,
{
    if to <= from {
        Some(seq![])
    } else {
        match (rendered_lines(lines, from, to - 1), rendered_line(to as nat, lines[to - 1])) {
            (Some(a), Some(b)) => Some(a + b),
            _ => None,
        }
    }
}

/// The read of a text file with the given lines. `None` where it cannot
/// be done: a window end that overflows, or a long line cut inside a
/// character.
pub open spec fn read_text_spec(path: Seq<char>, lines: Seq<Seq<char>>, offset: nat, limit: nat, limit_explicit: bool) -> Option<Result<(Seq<char>, nat, nat, bool), Seq<char>>> {
    let total = lines.len();
    if !limit_explicit && total > DEFAULT_LINE_LIMIT {
        Some(Err(file_gate_msg(path, total)))
    } else if offset > total && !(total == 0 && offset == 1) {
        Some(Err(offset_msg(offset, total)))
    } else {
        let (start, end) = window(total, offset, limit);
        if start + limit > usize::MAX {
            None
        } else {
            let (from, to) = if start < total { (start as int, end as int) } else { (0int, 0int) };
            match rendered_lines(lines, from, to) {
                None => None,
                Some(content) => Some(Ok((content, total, (to - from) as nat, end < total))),
            }
        }
    }
}

fn file_gate_error(file_path: &str, total: usize) -> (r: String)
    ensures
        r@ == file_gate_msg(file_path@, total as nat),
{
    let mut m = chars_of("File ");
    append_str(&mut m, file_path);
    append_str(&mut m, " has ");
    append_chars(&mut m, &decimal_vec(total as u64));
    append_str(&mut m, " lines (default limit: ");
    append_chars(&mut m, &decimal_vec(DEFAULT_LINE_LIMIT as u64));
    append_str(&mut m, "). Choose one:\n- Ranged read: call Read again with explicit offset and limit (e.g., offset=1, limit=500)\n- Search: call RipGrep with path=\"");
    append_str(&mut m, file_path);
    append_str(&mut m, "\" and a regex pattern to find specific content\n- Summarize: spawn self_agent with a focused question so the file stays out of this context");
    string_of(&m)
}

fn offset_error(offset: usize, total: usize) -> (r: String)
    ensures
        r@ == offset_msg(offset as nat, total as nat),
{
    let mut m = chars_of("Offset ");
    append_chars(&mut m, &decimal_vec(offset as u64));
    append_str(&mut m, " is out of range for this file (");
    append_chars(&mut m, &decimal_vec(total as u64));
    append_str(&mut m, " lines)");
    string_of(&m)
}

/// The rendered lines `from..to`.
fn render_window(all_lines: &[String], from: usize, to: usize) -> (r: Option<Vec<char>>)
    requires
        from <= to <= all_lines.len(),
    ensures
        match r {
            None => rendered_lines(all_lines@.map_values(|s: String| s@), from as int, to as int) is None,
            Some(c) => rendered_lines(all_lines@.map_values(|s: String| s@), from as int, to as int) == Some(c@),
        },
{
    let ghost lv = all_lines@.map_values(|s: String| s@);
    let mut content: Vec<char> = Vec::new();
    let mut i = from;
    assert(rendered_lines(lv, from as int, from as int) == Some(Seq::<char>::empty()));
    while i < to
        invariant
            from <= i <= to <= all_lines.len(),
            lv == all_lines@.map_values(|s: String| s@),
            rendered_lines(lv, from as int, i as int) == Some(content@),
        decreases to - i,
    {
        match snippet(all_lines[i].as_str(), MAX_LINE_LENGTH) {
            None => {
                proof {
                    lemma_rendered_prefix_none(lv, from as int, i + 1, to as int);
                }
                return None;
            },
            Some(d) => {
                append_chars(&mut content, &decimal_vec((i + 1) as u64));
                append_str(&mut content, ": ");
                append_str(&mut content, d.as_str());
                append_str(&mut content, "\n");
            },
        }
        i = i + 1;
    }
    Some(content)
}

/// Reads the given lines of a text file: the default-limit gate when no
/// limit was given, the offset check, then the window rendered as
/// numbered lines. `None` where `read_text_spec` has no result.
pub fn render_text_file(file_path: &str, all_lines: &[String], offset: usize, limit: usize, limit_explicit: bool) -> (r: Option<Result<ReadResult, String>>)
    ensures
        ({
            let spec = read_text_spec(file_path@, all_lines@.map_values(|s: String| s@), offset as nat, limit as nat, limit_explicit);
            match r {
                None => spec is None,
                Some(Err(m)) => spec == Some(Err::<(Seq<char>, nat, nat, bool), Seq<char>>(m@)),
                Some(Ok(res)) => spec == Some(Ok::<(Seq<char>, nat, nat, bool), Seq<char>>(read_result_view(res))),
            }
        }),
{
    let total = all_lines.len();
    if !limit_explicit && total > DEFAULT_LINE_LIMIT {
        return Some(Err(file_gate_error(file_path, total)));
    }
    if offset > total && !(total == 0 && offset == 1) {
        return Some(Err(offset_error(offset, total)));
    }
    let start = if offset > 0 { offset - 1 } else { 0 };
    if limit > usize::MAX - start {
        return None;
    }
    let end = if start + limit < total { start + limit } else { total };
    let (from, to) = if start < total { (start, end) } else { (0, 0) };
    match render_window(all_lines, from, to) {
        None => None,
        Some(content) => Some(Ok(ReadResult { content: string_of(&content), total_lines: total, lines_read: to - from, truncated: end < total })),
    }
}

proof fn lemma_rendered_prefix_none(lines: Seq<Seq<char>>, from: int, mid: int, to: int)
    requires
        from <= mid <= to,
        rendered_lines(lines, from, mid) is None,
    ensures
        rendered_lines(lines, from, to) is None,
    decreases to - mid,
{
    if mid < to {
        lemma_rendered_prefix_none(lines, from, mid, to - 1);
    }
}

// ---------------------------------------------------------------------------
// Directories
// ---------------------------------------------------------------------------

/// `a <= b` in the order of Rust strings (by code point).
pub open spec fn str_le(a: Seq<char>, b: Seq<char>) -> bool
    decreases a.len(),
{
    if a.len() == 0 {
        true
    } else if b.len() == 0 {
        false
    } else if a[0] != b[0] {
        (a[0] as u32) < (b[0] as u32)
    } else {
        str_le(a.drop_first(), b.drop_first())
    }
}

/// `x` put after the elements of the sorted `s` whose key is at most its own.
pub open spec fn insert_by_key(s: Seq<(Seq<char>, Seq<char>)>, x: (Seq<char>, Seq<char>)) -> Seq<(Seq<char>, Seq<char>)>
    decreases s.len(),
{
    if s.len() == 0 {
        seq![x]
    } else if str_le(s.last().0, x.0) {
        s.push(x)
    } else {
        insert_by_key(s.drop_last(), x).push(s.last())
    }
}

/// Stable sort of `(key, item)` pairs by key.
pub open spec fn sort_by_key(s: Seq<(Seq<char>, Seq<char>)>) -> Seq<(Seq<char>, Seq<char>)>
    decreases s.len(),
{
    if s.len() == 0 {
        seq![]
    } else {
        insert_by_key(sort_by_key(s.drop_last()), s.last())
    }
}

/// The listed name of an entry: directories get a trailing `/`.
pub open spec fn entry_name(e: (Seq<char>, bool)) -> Seq<char> {
    if e.1 {
        e.0 + "/"@
    } else {
        e.0
    }
}

/// The entries' names, keyed by their lowercase form, sorted stably by key.
pub open spec fn sorted_entries(entries: Seq<(Seq<char>, bool)>) -> Seq<Seq<char>> {
    sort_by_key(entries.map_values(|e: (Seq<char>, bool)| (lowercase(entry_name(e)), entry_name(e)))).map_values(
        |p: (Seq<char>, Seq<char>)| p.1,
    )
}

/// Error for a directory over the default limit read without a limit.
pub open spec fn dir_gate_msg(path: Seq<char>, total: nat) -> Seq<char> {
    "Directory "@ + path + " has "@ + decimal(total) + " entries (default limit: "@ + decimal(
        DEFAULT_LINE_LIMIT as nat,
    )
        + "). Choose one:\n- Ranged read: call Read again with explicit offset and limit (e.g., offset=1, limit=500)\n- Narrow: call Glob with pattern=\"...\" and path=\""@
        + path + "\" to match only what you need\n- Summarize: spawn self_agent with a focused question so the listing stays out of this context"@
}

/// The read of a directory with the given entries `(name, is_dir)`.
/// `None` where the window end overflows.
pub open spec fn read_dir_spec(path: Seq<char>, entries: Seq<(Seq<char>, bool)>, offset: nat, limit: nat, limit_explicit: bool) -> Option<Result<(Seq<char>, nat, nat, bool), Seq<char>>> {
    let names = sorted_entries(entries);
    let total = names.len();
    if !limit_explicit && total > DEFAULT_LINE_LIMIT {
        Some(Err(dir_gate_msg(path, total)))
    } else {
        let (start, end) = window(total, offset, limit);
        if start + limit > usize::MAX {
            None
        } else {
            let sel = if start < total { names.subrange(start as int, end as int) } else { seq![] };
            Some(Ok((join(sel, "\n"@), total, sel.len(), end < total)))
        }
    }
}

fn str_le_exec(a: &[char], b: &[char]) -> (r: bool)
    ensures
        r == str_le(a@, b@),
{
    let mut i: usize = 0;
    assert(a@.skip(0) =~= a@);
    assert(b@.skip(0) =~= b@);
    while i < a.len() && i < b.len() && a[i] == b[i]
        invariant
            i <= a.len(),
            i <= b.len(),
            str_le(a@, b@) == str_le(a@.skip(i as int), b@.skip(i as int)),
        decreases a.len() - i,
    {
        proof {
            assert(a@.skip(i as int).drop_first() =~= a@.skip(i + 1));
            assert(b@.skip(i as int).drop_first() =~= b@.skip(i + 1));
        }
        i = i + 1;
    }
    if i == a.len() {
        return true;
    }
    if i == b.len() {
        return false;
    }
    assert(a@.skip(i as int)[0] == a@[i as int]);
    assert(b@.skip(i as int)[0] == b@[i as int]);
    (a[i] as u32) < (b[i] as u32)
}

proof fn lemma_insert_key_split(s: Seq<(Seq<char>, Seq<char>)>, x: (Seq<char>, Seq<char>), p: int)
    requires
        0 <= p <= s.len(),
        p == 0 || str_le(s[p - 1].0, x.0),
        forall|k: int| p <= k < s.len() ==> !str_le(#[trigger] s[k].0, x.0),
    ensures
        insert_by_key(s, x) == s.take(p) + seq![x] + s.skip(p),
    decreases s.len(),
{
    if s.len() == 0 {
        assert(s.take(p) + seq![x] + s.skip(p) =~= seq![x]);
    } else if p == s.len() {
        assert(s.take(p) + seq![x] + s.skip(p) =~= s.push(x));
    } else {
        assert(!str_le(s[s.len() - 1].0, x.0));
        lemma_insert_key_split(s.drop_last(), x, p);
        assert(s.drop_last().take(p) + seq![x] + s.drop_last().skip(p) + seq![s.last()] =~= s.take(p) + seq![x]
            + s.skip(p));
    }
}

/// Stable sort of `(key, item)` pairs by key.
pub(crate) fn sort_pairs_pub(pairs: &Vec<(Vec<char>, Vec<char>)>) -> (r: Vec<(Vec<char>, Vec<char>)>)
    ensures
        r@.map_values(|p: (Vec<char>, Vec<char>)| (p.0@, p.1@)) == sort_by_key(
            pairs@.map_values(|p: (Vec<char>, Vec<char>)| (p.0@, p.1@)),
        ),
{
    let ghost pv = pairs@.map_values(|p: (Vec<char>, Vec<char>)| (p.0@, p.1@));
    let mut out: Vec<(Vec<char>, Vec<char>)> = Vec::new();
    let mut i: usize = 0;
    assert(pv.take(0) =~= Seq::<(Seq<char>, Seq<char>)>::empty());
    assert(out@.map_values(|p: (Vec<char>, Vec<char>)| (p.0@, p.1@)) =~= Seq::<(Seq<char>, Seq<char>)>::empty());
    while i < pairs.len()
        invariant
            i <= pairs.len(),
            pv == pairs@.map_values(|p: (Vec<char>, Vec<char>)| (p.0@, p.1@)),
            out@.map_values(|p: (Vec<char>, Vec<char>)| (p.0@, p.1@)) == sort_by_key(pv.take(i as int)),
        decreases pairs.len() - i,
    {
        let k = crate::text::slice_vec(&pairs[i].0, 0, pairs[i].0.len());
        let v = crate::text::slice_vec(&pairs[i].1, 0, pairs[i].1.len());
        proof {
            assert(pairs@[i as int].0@.subrange(0, pairs@[i as int].0@.len() as int) =~= pairs@[i as int].0@);
            assert(pairs@[i as int].1@.subrange(0, pairs@[i as int].1@.len() as int) =~= pairs@[i as int].1@);
        }
        let ghost xv = (k@, v@);
        assert(xv == pv[i as int]);
        let ghost sv = out@.map_values(|p: (Vec<char>, Vec<char>)| (p.0@, p.1@));
        let mut p = out.len();
        while p > 0 && !str_le_exec(&out[p - 1].0, &k)
            invariant
                p <= out.len(),
                sv == out@.map_values(|p: (Vec<char>, Vec<char>)| (p.0@, p.1@)),
                forall|j: int| p <= j < out.len() ==> !str_le(#[trigger] sv[j].0, k@),
            decreases p,
        {
            p = p - 1;
        }
        proof {
            lemma_insert_key_split(sv, xv, p as int);
            assert(pv.take(i + 1).drop_last() =~= pv.take(i as int));
        }
        out.insert(p, (k, v));
        proof {
            assert(out@.map_values(|p: (Vec<char>, Vec<char>)| (p.0@, p.1@)) =~= sv.take(p as int) + seq![xv] + sv.skip(
                p as int,
            ));
        }
        i = i + 1;
    }
    assert(pv.take(pairs@.len() as int) =~= pv);
    out
}

/// Lists a directory from its entries `(name, is_dir)`: directories get a
/// trailing `/`, the names are sorted by their lowercase form, and the
/// window is joined by newlines. `None` when the window end overflows.
pub fn render_directory(file_path: &str, entries: &[(String, bool)], offset: usize, limit: usize, limit_explicit: bool) -> (r: Option<Result<ReadResult, String>>)
    ensures
        ({
            let spec = read_dir_spec(file_path@, entries@.map_values(|e: (String, bool)| (e.0@, e.1)), offset as nat, limit as nat, limit_explicit);
            match r {
                None => spec is None,
                Some(Err(m)) => spec == Some(Err::<(Seq<char>, nat, nat, bool), Seq<char>>(m@)),
                Some(Ok(res)) => spec == Some(Ok::<(Seq<char>, nat, nat, bool), Seq<char>>(read_result_view(res))),
            }
        }),
{
    let ghost ev = entries@.map_values(|e: (String, bool)| (e.0@, e.1));
    let mut pairs: Vec<(Vec<char>, Vec<char>)> = Vec::new();
    let mut i: usize = 0;
    while i < entries.len()
        invariant
            i <= entries.len(),
            ev == entries@.map_values(|e: (String, bool)| (e.0@, e.1)),
            pairs@.map_values(|p: (Vec<char>, Vec<char>)| (p.0@, p.1@)) == ev.map_values(
                |e: (Seq<char>, bool)| (lowercase(entry_name(e)), entry_name(e)),
            ).take(i as int),
        decreases entries.len() - i,
    {
        let mut name = chars_of(entries[i].0.as_str());
        if entries[i].1 {
            name.push('/');
        }
        proof {
            reveal_strlit("/");
            assert(name@ == entry_name(ev[i as int]));
        }
        let low = to_lowercase(string_of(&name).as_str());
        let key = chars_of(low.as_str());
        let pair = (key, name);
        proof {
            assert(pairs@.push(pair).map_values(|p: (Vec<char>, Vec<char>)| (p.0@, p.1@)) =~= pairs@.map_values(
                |p: (Vec<char>, Vec<char>)| (p.0@, p.1@),
            ).push((pair.0@, pair.1@)));
            assert(ev.map_values(|e: (Seq<char>, bool)| (lowercase(entry_name(e)), entry_name(e))).take(i + 1)
                =~= ev.map_values(|e: (Seq<char>, bool)| (lowercase(entry_name(e)), entry_name(e))).take(i as int).push(
                (pair.0@, pair.1@),
            ));
        }
        pairs.push(pair);
        i = i + 1;
    }
    assert(ev.map_values(|e: (Seq<char>, bool)| (lowercase(entry_name(e)), entry_name(e))).take(entries@.len() as int)
        =~= ev.map_values(|e: (Seq<char>, bool)| (lowercase(entry_name(e)), entry_name(e))));
    let sorted = sort_pairs_pub(&pairs);
    let ghost names = sorted_entries(ev);
    let mut lines: Vec<Vec<char>> = Vec::new();
    let mut k: usize = 0;
    while k < sorted.len()
        invariant
            k <= sorted.len(),
            names == sort_by_key(pairs@.map_values(|p: (Vec<char>, Vec<char>)| (p.0@, p.1@))).map_values(
                |p: (Seq<char>, Seq<char>)| p.1,
            ),
            sorted@.map_values(|p: (Vec<char>, Vec<char>)| (p.0@, p.1@)) == sort_by_key(
                pairs@.map_values(|p: (Vec<char>, Vec<char>)| (p.0@, p.1@)),
            ),
            views(lines@) == names.take(k as int),
        decreases sorted.len() - k,
    {
        let l = crate::text::slice_vec(&sorted[k].1, 0, sorted[k].1.len());
        proof {
            assert(sorted@[k as int].1@.subrange(0, sorted@[k as int].1@.len() as int) =~= sorted@[k as int].1@);
            lemma_views_push(lines@, l);
            assert(names[k as int] == sorted@.map_values(|p: (Vec<char>, Vec<char>)| (p.0@, p.1@))[k as int].1);
            assert(names.take(k + 1) =~= names.take(k as int).push(l@));
        }
        lines.push(l);
        k = k + 1;
    }
    assert(names.take(sorted@.len() as int) =~= names);
    let total = lines.len();
    if !limit_explicit && total > DEFAULT_LINE_LIMIT {
        let mut m = chars_of("Directory ");
        append_str(&mut m, file_path);
        append_str(&mut m, " has ");
        append_chars(&mut m, &decimal_vec(total as u64));
        append_str(&mut m, " entries (default limit: ");
        append_chars(&mut m, &decimal_vec(DEFAULT_LINE_LIMIT as u64));
        append_str(&mut m, "). Choose one:\n- Ranged read: call Read again with explicit offset and limit (e.g., offset=1, limit=500)\n- Narrow: call Glob with pattern=\"...\" and path=\"");
        append_str(&mut m, file_path);
        append_str(&mut m, "\" to match only what you need\n- Summarize: spawn self_agent with a focused question so the listing stays out of this context");
        return Some(Err(string_of(&m)));
    }
    let start = if offset > 0 { offset - 1 } else { 0 };
    if limit > usize::MAX - start {
        return None;
    }
    let end = if start + limit < total { start + limit } else { total };
    let sel = if start < total { crate::text::copy_lines(&lines, start, end) } else { Vec::new() };
    proof {
        if !(start < total) {
            assert(views(sel@) =~= Seq::<Seq<char>>::empty());
        }
    }
    let content = join_vec(&sel, &chars_of("\n"));
    Some(Ok(ReadResult { content: string_of(&content), total_lines: total, lines_read: sel.len(), truncated: end < total }))
}

// ---------------------------------------------------------------------------
// The tool
// ---------------------------------------------------------------------------

/// The read tool.
#[derive(Debug)]
pub struct ReadTool;

impl ReadTool {
    /// The tool.
    pub fn new() -> (r: Self) {
        ReadTool
    }

    /// The tool's registered name.
    pub fn name(&self) -> (r: &'static str)
        ensures
            r@ == "Read"@,
    {
        "Read"
    }

    /// What the tool does, for the model.
    pub fn description(&self) -> (r: &'static str)
        ensures
            r@ == read_description(),
    {
        "Reads a file or lists a directory. The file_path must be an absolute path. Lines are shown numbered; use offset and limit to page through large files. Files with more than 2000 lines must be read with an explicit limit, searched, or summarized by a self_agent. Long lines are cut. Images and PDFs are returned as base64 data (image support), other binary files are refused. To find specific content, use RipGrep (grep for a regex) instead of reading whole files."
    }
}

/// The read tool's description.
pub open spec fn read_description() -> Seq<char> {
    "Reads a file or lists a directory. The file_path must be an absolute path. Lines are shown numbered; use offset and limit to page through large files. Files with more than 2000 lines must be read with an explicit limit, searched, or summarized by a self_agent. Long lines are cut. Images and PDFs are returned as base64 data (image support), other binary files are refused. To find specific content, use RipGrep (grep for a regex) instead of reading whole files."@
}

/// A binary file handed back whole, Base64-encoded.
#[derive(Debug)]
pub struct FilePayload {
    /// `image` or `file`.
    pub kind: String,
    /// The image's lowercase extension (`bin` without one), or `pdf`.
    pub format: String,
    pub data: String,
    pub size_bytes: usize,
}

/// An image file's payload: its lowercase extension, or `bin`.
pub fn image_payload(path: &str, bytes: &[u8]) -> (r: FilePayload)
    ensures
        r.kind@ == "image"@,
        r.format@ == match path_extension(path@) {
            Some(e) => lowercase(e),
            None => lowercase("bin"@),
        },
        r.data@ == crate::artifacts::base64_standard(bytes@),
        r.size_bytes == bytes@.len(),
{
    let data = crate::artifacts::base64_encode(bytes);
    let format = match extension_of(path) {
        Some(e) => to_lowercase(e.as_str()),
        None => to_lowercase("bin"),
    };
    FilePayload { kind: "image".to_owned(), format, data, size_bytes: bytes.len() }
}

/// A PDF file's payload.
pub fn pdf_payload(bytes: &[u8]) -> (r: FilePayload)
    ensures
        r.kind@ == "file"@,
        r.format@ == "pdf"@,
        r.data@ == crate::artifacts::base64_standard(bytes@),
        r.size_bytes == bytes@.len(),
{
    let data = crate::artifacts::base64_encode(bytes);
    FilePayload { kind: "file".to_owned(), format: "pdf".to_owned(), data, size_bytes: bytes.len() }
}

/// A prefix cut at `b` bytes is a prefix of the line holding exactly `b`
/// bytes.
proof fn lemma_byte_prefix_is_prefix(l: Seq<char>, b: nat)
    ensures
        crate::edit::byte_prefix(l, b) matches Some(p) ==> p.len() <= l.len() && l.take(p.len() as int) == p
            && crate::text::utf8_len(p) == b,
    decreases l.len(),
{
    if b == 0 {
        assert(l.take(0) =~= Seq::<char>::empty());
    } else if l.len() > 0 && crate::text::utf8_width(l[0]) <= b {
        let w = crate::text::utf8_width(l[0]);
        lemma_byte_prefix_is_prefix(l.drop_first(), (b - w) as nat);
        if let Some(q) = crate::edit::byte_prefix(l.drop_first(), (b - w) as nat) {
            let p = seq![l[0]] + q;
            assert(l.take(p.len() as int) =~= seq![l[0]] + l.drop_first().take(q.len() as int));
            assert(p.drop_first() =~= q);
            assert(p[0] == l[0]);
        }
    }
}

/// No prefix of a line holds exactly `b` bytes when the cut at `b` fails.
proof fn lemma_byte_prefix_none(l: Seq<char>, b: nat)
    ensures
        crate::edit::byte_prefix(l, b) is None ==> forall|k: int|
            0 <= k <= l.len() ==> crate::text::utf8_len(#[trigger] l.take(k)) != b,
    decreases l.len(),
{
    if crate::edit::byte_prefix(l, b) is None {
        assert(b > 0);
        assert forall|k: int| 0 <= k <= l.len() implies crate::text::utf8_len(#[trigger] l.take(k)) != b by {
            if k == 0 {
                assert(l.take(0) =~= Seq::<char>::empty());
            } else {
                let w = crate::text::utf8_width(l[0]);
                assert(l.take(k).drop_first() =~= l.drop_first().take(k - 1));
                assert(l.take(k)[0] == l[0]);
                if w <= b {
                    lemma_byte_prefix_none(l.drop_first(), (b - w) as nat);
                    assert(crate::text::utf8_len(l.drop_first().take(k - 1)) != b - w);
                }
            }
        }
    }
}

/// Every rendered line is its number, `: `, the file's line and a newline
/// when the line holds at most `MAX_LINE_LENGTH` bytes; a longer line is
/// cut to a prefix of exactly `MAX_LINE_LENGTH` bytes followed by `...`.
/// A line is only left unrendered when it is longer than the limit and no
/// prefix of it holds exactly that many bytes (the cut would fall inside a
/// character).
pub proof fn lemma_rendered_line_cut(n: nat, line: Seq<char>)
    ensures
        crate::text::utf8_len(line) <= MAX_LINE_LENGTH ==> rendered_line(n, line) == Some(
            decimal(n) + ": "@ + line + "\n"@,
        ),
        crate::text::utf8_len(line) > MAX_LINE_LENGTH ==> match rendered_line(n, line) {
            Some(r) => exists|k: int|
                0 <= k < line.len() && crate::text::utf8_len(#[trigger] line.take(k)) == MAX_LINE_LENGTH && r
                    == decimal(n) + ": "@ + line.take(k) + "..."@ + "\n"@,
            None => forall|k: int| 0 <= k <= line.len() ==> crate::text::utf8_len(#[trigger] line.take(k)) != MAX_LINE_LENGTH,
        },
{
    if crate::text::utf8_len(line) > MAX_LINE_LENGTH {
        lemma_byte_prefix_none(line, MAX_LINE_LENGTH as nat);
        lemma_byte_prefix_is_prefix(line, MAX_LINE_LENGTH as nat);
        if let Some(p) = crate::edit::byte_prefix(line, MAX_LINE_LENGTH as nat) {
            let k = p.len() as int;
            if k == line.len() {
                assert(line.take(k) =~= line);
            }
            assert(line.take(k) == p);
        }
    }
}

} // verus!
