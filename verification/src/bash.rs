//! The bash tool's logic: the shaping of command output, and the default
//! description of a command.
use vstd::prelude::*;
use crate::edit::{byte_prefix, byte_prefix_exec};
use crate::indent_match::{byte_skip, byte_skip_exec};
use crate::text::{append_chars, append_str, chars_of, decimal, decimal_vec, lines_of, lines_vec, string_of, utf8_len};

verus! {

/// Output longer than this many bytes is cut.
pub const MAX_OUTPUT_BYTES: usize = 50000;

/// Bytes kept from the start of cut output.
pub const SPILL_HEAD_BYTES: usize = 1000;

/// Bytes kept from the end of cut output.
pub const SPILL_TAIL_BYTES: usize = 1000;

/// Timeout when the caller gives none, in milliseconds.
pub const DEFAULT_TIMEOUT_MS: u64 = 120000;

/// Arguments of the bash tool.
#[derive(Debug)]
pub struct BashArgs {
    pub command: String,
    pub timeout: Option<u64>,
    pub workdir: Option<String>,
    pub description: Option<String>,
    pub background: bool,
}

/// Result reported by the bash tool.
#[derive(Debug)]
pub struct BashResult {
    pub output: String,
    pub exit_code: Option<i32>,
    pub timed_out: bool,
}

/// The bash tool.
#[derive(Debug)]
pub struct BashTool;

impl BashTool {
    pub fn new() -> (r: Self) {
        BashTool
    }

    /// The tool's registered name.
    pub fn name(&self) -> (r: &'static str)
        ensures
            r@ == "bash"@,
    {
        "bash"
    }
}

/// The text `String::from_utf8_lossy` decodes from bytes.
pub uninterp spec fn utf8_lossy(bytes: Seq<u8>) -> Seq<char>;

/// Calls `String::from_utf8_lossy`; the result is named `utf8_lossy`.
#[verifier::external_body]
pub(crate) fn lossy_text(bytes: &[u8]) -> (r: String)
    ensures
        r@ == utf8_lossy(bytes@),
{
    String::from_utf8_lossy(bytes).into_owned()
}

/// The output text of a command: the decoded bytes when short enough;
/// otherwise, when the full output was saved to `spill`, its first and last
/// thousand bytes around a note giving the size and the place, else its
/// first bytes up to the limit and a note. `None` where a cut falls inside
/// a character.
pub open spec fn output_text(bytes: Seq<u8>, spill: Option<Seq<char>>) -> Option<Seq<char>> {
    let s = utf8_lossy(bytes);
    let n = utf8_len(s);
    if n <= MAX_OUTPUT_BYTES {
        Some(s)
    } else {
        match spill {
            Some(path) => match (byte_prefix(s, SPILL_HEAD_BYTES as nat), byte_skip(s, (n - SPILL_TAIL_BYTES) as nat)) {
                (Some(head), Some(tail)) => Some(
                    head + "\n\n... [Output truncated. Full output ("@ + decimal(bytes.len()) + " bytes) saved to: "@
                        + path + "] ...\n\n"@ + tail,
                ),
                _ => None,
            },
            None => match byte_prefix(s, MAX_OUTPUT_BYTES as nat) {
                Some(head) => Some(head + "\n[output truncated]"@),
                None => None,
            },
        }
    }
}

pub open spec fn opt_str_view(o: Option<&str>) -> Option<Seq<char>> {
    match o {
        Some(s) => Some(s@),
        None => None,
    }
}

/// The output text of a command (see `output_text`).
pub fn truncate_output(bytes: &[u8], spill_path: Option<&str>) -> (r: String)
    requires
        output_text(bytes@, opt_str_view(spill_path)) is Some,
    ensures
        output_text(bytes@, opt_str_view(spill_path)) == Some(r@),
{
    match try_truncate_output(bytes, spill_path) {
        Some(s) => s,
        None => String::new(),
    }
}

/// The output text of a command, or `None` where a cut falls inside a
/// character.
pub fn try_truncate_output(bytes: &[u8], spill_path: Option<&str>) -> (r: Option<String>)
    ensures
        match r {
            None => output_text(bytes@, opt_str_view(spill_path)) is None,
            Some(s) => output_text(bytes@, opt_str_view(spill_path)) == Some(s@),
        },
{
    let s = lossy_text(bytes);
    let cs = chars_of(s.as_str());
    let n = crate::text::str_byte_len(s.as_str());
    if n <= MAX_OUTPUT_BYTES {
        return Some(s);
    }
    match spill_path {
        Some(path) => {
            let head = match byte_prefix_exec(&cs, SPILL_HEAD_BYTES) {
                Some(h) => h,
                None => {
                    return None;
                },
            };
            let tail = match byte_skip_exec(&cs, (n - SPILL_TAIL_BYTES) as u128) {
                Some(t) => t,
                None => {
                    return None;
                },
            };
            let mut out = head;
            append_str(&mut out, "\n\n... [Output truncated. Full output (");
            append_chars(&mut out, &decimal_vec(bytes.len() as u64));
            append_str(&mut out, " bytes) saved to: ");
            append_str(&mut out, path);
            append_str(&mut out, "] ...\n\n");
            append_chars(&mut out, &tail);
            Some(string_of(&out))
        },
        None => match byte_prefix_exec(&cs, MAX_OUTPUT_BYTES) {
            Some(h) => {
                let mut out = h;
                append_str(&mut out, "\n[output truncated]");
                Some(string_of(&out))
            },
            None => None,
        },
    }
}

/// The description of a command given none: its first line, cut to 77
/// bytes and `...` when longer than 80 bytes. `None` where the cut falls
/// inside a character.
pub open spec fn default_description_spec(command: Seq<char>) -> Option<Seq<char>> {
    let ls = lines_of(command);
    let first = if ls.len() > 0 { ls[0] } else { command };
    if utf8_len(first) > 80 {
        match byte_prefix(first, 77) {
            Some(p) => Some(p + "..."@),
            None => None,
        }
    } else {
        Some(first)
    }
}

/// The description of a command given none (see
/// `default_description_spec`).
pub fn default_description(command: &str) -> (r: Option<String>)
    ensures
        match r {
            None => default_description_spec(command@) is None,
            Some(s) => default_description_spec(command@) == Some(s@),
        },
{
    let cs = chars_of(command);
    let ls = lines_vec(&cs);
    let first: Vec<char> = if ls.len() > 0 {
        assert(crate::text::views(ls@)[0] == ls@[0]@);
        crate::text::slice_vec(&ls[0], 0, ls[0].len())
    } else {
        cs
    };
    proof {
        if ls@.len() > 0 {
            assert(ls@[0]@.subrange(0, ls@[0]@.len() as int) =~= ls@[0]@);
        }
    }
    let fs = string_of(&first);
    if crate::text::str_byte_len(fs.as_str()) > 80 {
        match byte_prefix_exec(&first, 77) {
            Some(mut p) => {
                append_str(&mut p, "...");
                Some(string_of(&p))
            },
            None => None,
        }
    } else {
        Some(fs)
    }
}

/// A command's output: what it wrote to stdout, then, when it wrote to
/// stderr too, a newline if stdout did not end with one, then stderr.
pub open spec fn combined_output(stdout: Seq<u8>, stderr: Seq<u8>) -> Seq<u8> {
    if stderr.len() == 0 {
        stdout
    } else if stdout.len() > 0 && stdout.last() != 10u8 {
        stdout.push(10u8) + stderr
    } else {
        stdout + stderr
    }
}

/// Joins a command's stdout and stderr.
pub fn combine_output(stdout: &[u8], stderr: &[u8]) -> (r: Vec<u8>)
    ensures
        r@ == combined_output(stdout@, stderr@),
{
    let mut out: Vec<u8> = Vec::new();
    let mut i: usize = 0;
    while i < stdout.len()
        invariant
            i <= stdout.len(),
            out@ == stdout@.take(i as int),
        decreases stdout.len() - i,
    {
        out.push(stdout[i]);
        assert(out@ =~= stdout@.take(i + 1));
        i = i + 1;
    }
    assert(out@ =~= stdout@);
    if stderr.len() == 0 {
        return out;
    }
    if stdout.len() > 0 && stdout[stdout.len() - 1] != 10u8 {
        out.push(10u8);
    }
    let ghost base = out@;
    let mut j: usize = 0;
    while j < stderr.len()
        invariant
            j <= stderr.len(),
            out@ == base + stderr@.take(j as int),
        decreases stderr.len() - j,
    {
        out.push(stderr[j]);
        assert(out@ =~= base + stderr@.take(j + 1));
        j = j + 1;
    }
    assert(stderr@.take(j as int) =~= stderr@);
    out
}

/// The result of a command that ran out of time.
pub fn timed_out_result() -> (r: BashResult)
    ensures
        r.output@ == "[timed out]"@,
        r.exit_code is None,
        r.timed_out,
{
    BashResult { output: "[timed out]".to_owned(), exit_code: None, timed_out: true }
}

/// Whether a command's output is too long to return whole, so that it is
/// first saved to a file.
pub fn needs_spill(bytes: &[u8]) -> (r: bool)
    ensures
        r == (utf8_len(utf8_lossy(bytes@)) > MAX_OUTPUT_BYTES),
{
    let s = lossy_text(bytes);
    crate::text::str_byte_len(s.as_str()) > MAX_OUTPUT_BYTES
}

} // verus!
