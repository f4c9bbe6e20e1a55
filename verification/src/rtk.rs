//! Routing shell commands through `rtk rewrite`, and the filter set written
//! to rtk's user-global configuration: where it goes, what it holds, and
//! which rewrite is used.
use vstd::prelude::*;

use crate::similar_files::{join_path, joined_path};
use crate::text::{append_str, chars_of, string_of};

verus! {

/// Header stamped onto the filters file rtk reads, so that nobody edits it
/// in place.
pub const MANAGED_HEADER: &'static str = "# MANAGED BY portal.bridge — DO NOT EDIT HERE.\n# This file is written by the bridge on every startup from an embedded asset.\n# Source of truth: crates/tools/assets/laravel-filters.toml in the bridge repo.\n# Local edits here will be overwritten on the next bridge launch.\n\n";

/// The filters file's path under a user configuration directory:
/// `<config>/rtk/filters.toml`.
pub open spec fn filters_path_spec(config_dir: Seq<char>) -> Seq<char> {
    joined_path(joined_path(config_dir, "rtk"@), "filters.toml"@)
}

/// The path of the filters file under the configuration directory given.
pub fn filters_path_in(config_dir: &str) -> (r: String)
    ensures
        r@ == filters_path_spec(config_dir@),
{
    let dir = join_path(config_dir, "rtk");
    join_path(dir.as_str(), "filters.toml")
}

/// Calls `dirs::config_dir` and renders the directory; it depends on the
/// platform and the environment, so nothing is stated of it.
#[verifier::external_body]
fn user_config_dir() -> (r: Option<String>) {
    dirs::config_dir().map(|p| p.to_string_lossy().to_string())
}

/// The error when the user configuration directory cannot be resolved.
pub open spec fn no_config_dir_msg() -> Seq<char> {
    "could not resolve user config directory (dirs::config_dir returned None)"@
}

/// The global filters file rtk reads: `rtk/filters.toml` under the user's
/// configuration directory, or an error when there is none.
pub fn global_filters_path() -> (r: Result<String, String>)
    ensures
        match r {
            Ok(p) => exists|d: Seq<char>| p@ == filters_path_spec(d),
            Err(m) => m@ == no_config_dir_msg(),
        },
{
    match user_config_dir() {
        Some(d) => Ok(filters_path_in(d.as_str())),
        None => Err("could not resolve user config directory (dirs::config_dir returned None)".to_owned()),
    }
}

/// The file written: the managed header, then the embedded filter set.
pub fn managed_filters(embedded: &str) -> (r: String)
    ensures
        r@ == MANAGED_HEADER@ + embedded@,
{
    let mut out = chars_of(MANAGED_HEADER);
    append_str(&mut out, embedded);
    string_of(&out)
}

/// The file is written unless what is on disk is already identical.
pub fn filters_need_write(existing: Option<&str>, contents: &str) -> (r: bool)
    ensures
        r == match existing {
            Some(e) => e@ != contents@,
            None => true,
        },
{
    match existing {
        Some(e) => !crate::text::chars_eq(&chars_of(e), &chars_of(contents)),
        None => true,
    }
}

/// `s` without its trailing line feeds and carriage returns.
pub open spec fn trim_newlines_end(s: Seq<char>) -> Seq<char>
    decreases s.len(),
{
    if s.len() > 0 && (s.last() == '\n' || s.last() == '\r') {
        trim_newlines_end(s.drop_last())
    } else {
        s
    }
}

fn trim_newlines_end_exec(s: &[char]) -> (r: Vec<char>)
    ensures
        r@ == trim_newlines_end(s@),
{
    let mut n: usize = s.len();
    assert(s@.take(n as int) =~= s@);
    while n > 0 && (s[n - 1] == '\n' || s[n - 1] == '\r')
        invariant
            n <= s.len(),
            trim_newlines_end(s@) == trim_newlines_end(s@.take(n as int)),
        decreases n,
    {
        assert(s@.take(n as int).drop_last() =~= s@.take(n - 1));
        n = n - 1;
    }
    let mut out: Vec<char> = Vec::new();
    let mut i: usize = 0;
    while i < n
        invariant
            i <= n <= s.len(),
            out@ == s@.take(i as int),
        decreases n - i,
    {
        out.push(s[i]);
        assert(s@.take(i + 1) =~= s@.take(i as int).push(s@[i as int]));
        i = i + 1;
    }
    proof {
        lemma_trim_stops(s@.take(n as int));
    }
    out
}

proof fn lemma_trim_stops(s: Seq<char>)
    requires
        !(s.len() > 0 && (s.last() == '\n' || s.last() == '\r')),
    ensures
        trim_newlines_end(s) == s,
{
}

/// Decodes UTF-8 as `String::from_utf8` does: the text when the bytes are
/// valid UTF-8, else nothing.
#[verifier::external_body]
fn utf8_text(bytes: &[u8]) -> (r: Option<String>)
    ensures
        match r {
            Some(s) => vstd::utf8::valid_utf8(bytes@) && s@ == vstd::utf8::decode_utf8(bytes@),
            None => !vstd::utf8::valid_utf8(bytes@),
        },
{
    String::from_utf8(bytes.to_vec()).ok()
}

/// The command that runs after `rtk rewrite` answered with `exit_code` and
/// `stdout`.
pub open spec fn rewrite_choice_spec(command: Seq<char>, exit_code: Option<i32>, stdout: Seq<u8>) -> Seq<char> {
    if vstd::utf8::valid_utf8(stdout) {
        let t = trim_newlines_end(vstd::utf8::decode_utf8(stdout));
        if (exit_code == Some(0i32) || exit_code == Some(3i32)) && t.len() > 0 {
            t
        } else {
            command
        }
    } else {
        command
    }
}

/// rtk's rewrite is used when it allowed (exit 0) or asked (exit 3) and
/// printed a command; passthrough, denial, any other exit, output that is
/// not UTF-8 or empty output keep the original command.
pub fn rewrite_choice(command: &str, exit_code: Option<i32>, stdout: &[u8]) -> (r: String)
    ensures
        r@ == rewrite_choice_spec(command@, exit_code, stdout@),
{
    match utf8_text(stdout) {
        None => command.to_owned(),
        Some(text) => {
            let t = trim_newlines_end_exec(&chars_of(text.as_str()));
            let allowed = match exit_code {
                Some(c) => c == 0 || c == 3,
                None => false,
            };
            if allowed && t.len() > 0 {
                string_of(&t)
            } else {
                command.to_owned()
            }
        },
    }
}

} // verus!
