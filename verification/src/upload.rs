//! The decisions of a resumable workspace upload: what each server reply
//! of the upload protocol means (create, query offset, append chunk), which
//! stored upload can be resumed, the metadata sent on creation, and the
//! next step of the chunk loop after each reply.
//!
//! The replies reach this module as plain values: the status code, its
//! display text, the headers that the protocol reads, and the body.
use vstd::prelude::*;

use crate::artifacts::{file_name_from_path, resolve_location, resolve_location_spec, PatchAck, TusError};
use crate::read::{sort_by_key, sort_pairs_pub};
use crate::text::{append_chars, append_str, chars_eq, chars_of, decimal, decimal_vec, digit_char, join, join_vec, string_of, views};

verus! {

// ---------------------------------------------------------------------------
// Status codes and offsets
// ---------------------------------------------------------------------------

/// A status in `500..=599`.
pub open spec fn server_error(status: u16) -> bool {
    500 <= status <= 599
}

/// A status in `200..=299`.
pub open spec fn success(status: u16) -> bool {
    200 <= status <= 299
}

/// The value of an ASCII decimal digit.
pub open spec fn digit_value(c: char) -> int {
    c as int - '0' as int
}

/// All characters are ASCII decimal digits.
pub open spec fn all_digits(s: Seq<char>) -> bool {
    forall|i: int| 0 <= i < s.len() ==> '0' <= #[trigger] s[i] <= '9'
}

/// The number a string of decimal digits denotes.
pub open spec fn digits_value(s: Seq<char>) -> nat
    decreases s.len(),
{
    if s.len() == 0 {
        0
    } else {
        (digits_value(s.drop_last()) * 10 + digit_value(s.last())) as nat
    }
}

/// The digits of a `u64` as `str::parse` reads them: an optional `+`, then
/// at least one digit.
pub open spec fn u64_digits(s: Seq<char>) -> Seq<char> {
    if s.len() > 0 && s[0] == '+' {
        s.drop_first()
    } else {
        s
    }
}

/// `s.parse::<u64>()`.
pub open spec fn parse_u64_spec(s: Seq<char>) -> Option<u64> {
    let d = u64_digits(s);
    if d.len() > 0 && all_digits(d) && digits_value(d) <= u64::MAX {
        Some(digits_value(d) as u64)
    } else {
        None
    }
}

/// Parses a `u64` as `str::parse` does.
pub fn parse_u64(s: &str) -> (r: Option<u64>)
    ensures
        r == parse_u64_spec(s@),
{
    let cs = chars_of(s);
    let start: usize = if cs.len() > 0 && cs[0] == '+' {
        1
    } else {
        0
    };
    let ghost d = u64_digits(s@);
    assert(d =~= cs@.skip(start as int));
    if start >= cs.len() {
        return None;
    }
    let mut v: u64 = 0;
    let mut i: usize = start;
    while i < cs.len()
        invariant
            start <= i <= cs.len(),
            cs@ == s@,
            d == u64_digits(s@),
            d == cs@.skip(start as int),
            all_digits(cs@.subrange(start as int, i as int)),
            v as nat == digits_value(cs@.subrange(start as int, i as int)),
        decreases cs.len() - i,
    {
        let c = cs[i];
        proof {
            assert(cs@.subrange(start as int, i + 1).drop_last() =~= cs@.subrange(start as int, i as int));
            assert(cs@.subrange(start as int, i + 1).last() == c);
        }
        if c < '0' || c > '9' {
            assert(d[i - start] == c);
            assert(!('0' <= d[i - start] <= '9'));
            return None;
        }
        let dv: u64 = (c as u64) - ('0' as u64);
        if v > (u64::MAX - dv) / 10 {
            proof {
                let n = digits_value(cs@.subrange(start as int, i + 1));
                assert(n == v * 10 + dv);
                assert(n > u64::MAX) by (nonlinear_arith)
                    requires
                        v > (u64::MAX - dv) / 10,
                        n == v * 10 + dv,
                        dv <= 9,
                ;
                assert(d.take((i + 1 - start) as int) =~= cs@.subrange(start as int, i + 1));
                if all_digits(d) {
                    lemma_digits_value_prefix_le(d, (i + 1 - start) as int);
                }
            }
            return None;
        }
        proof {
            assert(v * 10 + dv <= u64::MAX) by (nonlinear_arith)
                requires
                    v <= (u64::MAX - dv) / 10,
                    dv <= 9,
            ;
        }
        v = v * 10 + dv;
        i = i + 1;
        assert(all_digits(cs@.subrange(start as int, i as int)));
    }
    assert(cs@.subrange(start as int, i as int) =~= d);
    Some(v)
}

/// The value of the digits does not decrease as more digits follow.
pub proof fn lemma_digits_value_prefix_le(s: Seq<char>, k: int)
    requires
        0 <= k <= s.len(),
        all_digits(s),
    ensures
        digits_value(s.take(k)) <= digits_value(s),
    decreases s.len() - k,
{
    if k < s.len() {
        lemma_digits_value_prefix_le(s, k + 1);
        assert(s.take(k + 1).drop_last() =~= s.take(k));
        assert('0' <= s[k] <= '9');
    } else {
        assert(s.take(k) =~= s);
    }
}

/// Reading back the decimal text of a number gives the number: an offset
/// the client writes into a header parses to the same offset.
pub proof fn lemma_parse_decimal_roundtrip(n: u64)
    ensures
        parse_u64_spec(decimal(n as nat)) == Some(n),
{
    lemma_decimal_digits(n as nat);
    let d = decimal(n as nat);
    assert(d[0] != '+');
    assert(u64_digits(d) == d);
}

/// The decimal text of `n` is a non-empty string of digits denoting `n`.
pub proof fn lemma_decimal_digits(n: nat)
    ensures
        decimal(n).len() > 0,
        all_digits(decimal(n)),
        digits_value(decimal(n)) == n,
        '0' <= decimal(n)[0] <= '9',
    decreases n,
{
    if n < 10 {
        assert(digits_value(decimal(n).drop_last()) == 0) by {
            assert(decimal(n).drop_last() =~= Seq::<char>::empty());
        }
    } else {
        lemma_decimal_digits(n / 10);
        let d = decimal(n);
        assert(d.drop_last() =~= decimal(n / 10));
        assert(d.last() == digit_char(n % 10));
        assert forall|i: int| 0 <= i < d.len() implies '0' <= #[trigger] d[i] <= '9' by {
            if i < d.len() - 1 {
                assert(d[i] == decimal(n / 10)[i]);
            }
        }
        assert(n == (n / 10) * 10 + n % 10);
        assert(d[0] == decimal(n / 10)[0]);
    }
}

/// The offset a reply's `Upload-Offset` header gives.
pub open spec fn parse_offset_spec(header: Option<Seq<char>>) -> Option<u64> {
    match header {
        Some(h) => parse_u64_spec(h),
        None => None,
    }
}

/// The text of the error for a missing or invalid offset.
pub open spec fn missing_offset_text() -> Seq<char> {
    "response missing or invalid Upload-Offset"@
}

/// Reads the `Upload-Offset` header (its text, when it is present and
/// readable).
pub fn parse_offset(header: Option<&str>) -> (r: Result<u64, TusError>)
    ensures
        match (r, parse_offset_spec(opt_str(header))) {
            (Ok(v), Some(w)) => v == w,
            (Err(TusError::Permanent(m)), None) => m@ == missing_offset_text(),
            _ => false,
        },
{
    let parsed = match header {
        Some(h) => parse_u64(h),
        None => None,
    };
    match parsed {
        Some(v) => Ok(v),
        None => Err(TusError::Permanent("response missing or invalid Upload-Offset".to_owned())),
    }
}

/// The text of an optional `&str`.
pub open spec fn opt_str(o: Option<&str>) -> Option<Seq<char>> {
    match o {
        Some(s) => Some(s@),
        None => None,
    }
}

// ---------------------------------------------------------------------------
// Replies of the upload protocol
// ---------------------------------------------------------------------------

/// `prefix + status + ": " + body`.
pub open spec fn status_message(prefix: Seq<char>, status_text: Seq<char>, body: Seq<char>) -> Seq<char> {
    prefix + status_text + ": "@ + body
}

fn status_message_exec(prefix: &str, status_text: &str, body: &str) -> (r: String)
    ensures
        r@ == status_message(prefix@, status_text@, body@),
{
    let mut out = chars_of(prefix);
    append_str(&mut out, status_text);
    append_str(&mut out, ": ");
    append_str(&mut out, body);
    string_of(&out)
}

/// What a reply to the creation request means.
pub open spec fn create_reply_spec(
    upload_url: Seq<char>,
    status: u16,
    status_text: Seq<char>,
    location: Option<Seq<char>>,
    body: Seq<char>,
) -> Result<Seq<char>, (bool, Seq<char>)> {
    if status == 201 {
        match location {
            Some(l) => Ok(resolve_location_spec(upload_url, l)),
            None => Err((false, "creation response missing Location"@)),
        }
    } else if server_error(status) {
        Err((true, status_message("create returned "@, status_text, body)))
    } else {
        Err((false, status_message("create returned "@, status_text, body)))
    }
}

/// An error as `(transient, message)`, when it is transient or permanent.
pub open spec fn error_parts(e: TusError) -> (bool, Seq<char>) {
    match e {
        TusError::Transient(m) => (true, m@),
        TusError::Permanent(m) => (false, m@),
        TusError::Mismatch { .. } => (false, seq![]),
    }
}

/// The upload's location from a reply to the creation request: `201`
/// with a `Location` header gives it, resolved against the upload URL; a
/// server error is transient; anything else is permanent.
pub fn create_reply(
    upload_url: &str,
    status: u16,
    status_text: &str,
    location: Option<&str>,
    body: &str,
) -> (r: Result<String, TusError>)
    ensures
        match (r, create_reply_spec(upload_url@, status, status_text@, opt_str(location), body@)) {
            (Ok(l), Ok(w)) => l@ == w,
            (Err(e), Err(w)) => !(e is Mismatch) && error_parts(e) == w,
            _ => false,
        },
{
    if status == 201 {
        match location {
            Some(l) => Ok(resolve_location(upload_url, l)),
            None => Err(TusError::Permanent("creation response missing Location".to_owned())),
        }
    } else if 500 <= status && status <= 599 {
        Err(TusError::Transient(status_message_exec("create returned ", status_text, body)))
    } else {
        Err(TusError::Permanent(status_message_exec("create returned ", status_text, body)))
    }
}

/// What a reply to the offset query means.
pub open spec fn head_reply_spec(status: u16, status_text: Seq<char>, offset: Option<Seq<char>>, body: Seq<char>) -> Result<
    u64,
    (bool, Seq<char>),
> {
    if status == 404 || status == 410 {
        Err((false, "upload no longer exists ("@ + status_text + ")"@))
    } else if server_error(status) {
        Err((true, "HEAD returned "@ + status_text))
    } else if !success(status) && status != 204 {
        Err((false, status_message("HEAD returned "@, status_text, body)))
    } else {
        match parse_offset_spec(offset) {
            Some(v) => Ok(v),
            None => Err((false, missing_offset_text())),
        }
    }
}

/// The server's offset from a reply to the offset query: a gone upload is
/// permanent, a server error transient, another failure permanent, and a
/// success must carry the offset.
pub fn head_reply(status: u16, status_text: &str, offset: Option<&str>, body: &str) -> (r: Result<
    u64,
    TusError,
>)
    ensures
        match (r, head_reply_spec(status, status_text@, opt_str(offset), body@)) {
            (Ok(v), Ok(w)) => v == w,
            (Err(e), Err(w)) => !(e is Mismatch) && error_parts(e) == w,
            _ => false,
        },
{
    if status == 404 || status == 410 {
        let mut m = chars_of("upload no longer exists (");
        append_str(&mut m, status_text);
        append_str(&mut m, ")");
        return Err(TusError::Permanent(string_of(&m)));
    }
    if 500 <= status && status <= 599 {
        let mut m = chars_of("HEAD returned ");
        append_str(&mut m, status_text);
        return Err(TusError::Transient(string_of(&m)));
    }
    if !(200 <= status && status <= 299) && status != 204 {
        return Err(TusError::Permanent(status_message_exec("HEAD returned ", status_text, body)));
    }
    parse_offset(offset)
}

/// The acknowledgement of an appended chunk: `409` reports the server's
/// offset (or, when it gives none, the client's) as a mismatch; `200` and
/// `204` must carry the new offset; a server error is transient; anything
/// else is permanent.
pub fn patch_reply(status: u16, status_text: &str, offset: Option<&str>, client_offset: u64, body: &str) -> (r:
    Result<PatchAck, TusError>)
    ensures
        status == 409 ==> match (r, parse_offset_spec(opt_str(offset))) {
            (Err(TusError::Mismatch { server, client }), Some(s)) => server == s && client == client_offset,
            (Err(TusError::Mismatch { server, client }), None) => server == client_offset && client
                == client_offset,
            _ => false,
        },
        (status == 204 || status == 200) ==> match (r, parse_offset_spec(opt_str(offset))) {
            (Ok(a), Some(v)) => a.upload_offset == v,
            (Err(TusError::Permanent(m)), None) => m@ == missing_offset_text(),
            _ => false,
        },
        (status != 409 && status != 204 && status != 200) ==> match r {
            Err(e) => !(e is Mismatch) && error_parts(e) == (server_error(status), status_message(
                "PATCH returned "@,
                status_text@,
                body@,
            )),
            Ok(_) => false,
        },
{
    if status == 409 {
        return match parse_offset(offset) {
            Ok(server_offset) => Err(TusError::Mismatch { server: server_offset, client: client_offset }),
            Err(_) => Err(TusError::Mismatch { server: client_offset, client: client_offset }),
        };
    }
    if status == 204 || status == 200 {
        return match parse_offset(offset) {
            Ok(v) => Ok(PatchAck { upload_offset: v }),
            Err(e) => Err(e),
        };
    }
    if 500 <= status && status <= 599 {
        return Err(TusError::Transient(status_message_exec("PATCH returned ", status_text, body)));
    }
    Err(TusError::Permanent(status_message_exec("PATCH returned ", status_text, body)))
}

/// The error for a request that could not be sent: transient when it
/// timed out, failed to connect or failed while being built; else
/// permanent.
pub fn classify_send_error(transient_kind: bool, error_text: &str) -> (r: TusError)
    ensures
        !(r is Mismatch),
        error_parts(r) == (transient_kind, "send error: "@ + error_text@),
{
    let mut m = chars_of("send error: ");
    append_str(&mut m, error_text);
    if transient_kind {
        TusError::Transient(string_of(&m))
    } else {
        TusError::Permanent(string_of(&m))
    }
}

/// The error of a request that could not be sent, from what the HTTP
/// client reports of it: transient when it timed out, failed to connect or
/// failed while being built; permanent otherwise. The text is `send error: `
/// and the client's message.
pub fn classify_send_err(is_timeout: bool, is_connect: bool, is_request: bool, error_text: &str) -> (r: TusError)
    ensures
        !(r is Mismatch),
        error_parts(r) == (is_timeout || is_connect || is_request, "send error: "@ + error_text@),
{
    classify_send_error(is_timeout || is_connect || is_request, error_text)
}

// ---------------------------------------------------------------------------
// The file to upload
// ---------------------------------------------------------------------------

/// Why a file cannot be uploaded, if it cannot.
pub open spec fn upload_file_problem(abs_path: Seq<char>, is_file: bool, size: u64, max_size_bytes: u64) -> Option<
    Seq<char>,
> {
    if !is_file {
        Some("'"@ + abs_path + "' is not a regular file"@)
    } else if size == 0 {
        Some("'"@ + abs_path + "' is empty; refusing to upload"@)
    } else if size > max_size_bytes {
        Some("'"@ + abs_path + "' is "@ + decimal(size as nat) + " bytes, exceeds artifacts.max_size_bytes ("@
            + decimal(max_size_bytes as nat) + " bytes)"@)
    } else {
        None
    }
}

/// Checks that the file is a regular, non-empty file within the size limit.
pub fn check_upload_file(abs_path: &str, is_file: bool, size: u64, max_size_bytes: u64) -> (r: Result<(), String>)
    ensures
        match (r, upload_file_problem(abs_path@, is_file, size, max_size_bytes)) {
            (Ok(()), None) => true,
            (Err(m), Some(p)) => m@ == p,
            _ => false,
        },
{
    let mut m = chars_of("'");
    append_str(&mut m, abs_path);
    if !is_file {
        append_str(&mut m, "' is not a regular file");
        return Err(string_of(&m));
    }
    if size == 0 {
        append_str(&mut m, "' is empty; refusing to upload");
        return Err(string_of(&m));
    }
    if size > max_size_bytes {
        append_str(&mut m, "' is ");
        append_chars(&mut m, &decimal_vec(size));
        append_str(&mut m, " bytes, exceeds artifacts.max_size_bytes (");
        append_chars(&mut m, &decimal_vec(max_size_bytes));
        append_str(&mut m, " bytes)");
        return Err(string_of(&m));
    }
    Ok(())
}

/// The first MIME type `mime_guess` associates with the path's extension.
pub uninterp spec fn guessed_mime(path: Seq<char>) -> Option<Seq<char>>;

/// Calls `mime_guess::from_path(path).first_raw()`; the result is named
/// `guessed_mime`.
#[verifier::external_body]
fn guess_mime(path: &str) -> (r: Option<String>)
    ensures
        match r {
            Some(m) => guessed_mime(path@) == Some(m@),
            None => guessed_mime(path@) is None,
        },
{
    mime_guess::from_path(path).first_raw().map(|m| m.to_owned())
}

/// The content type of an upload: the caller's, else the one guessed from
/// the path, else `application/octet-stream`.
pub fn choose_content_type(requested: Option<&str>, path: &str) -> (r: String)
    ensures
        r@ == match requested {
            Some(c) => c@,
            None => match guessed_mime(path@) {
                Some(m) => m,
                None => "application/octet-stream"@,
            },
        },
{
    match requested {
        Some(c) => c.to_owned(),
        None => match guess_mime(path) {
            Some(m) => m,
            None => "application/octet-stream".to_owned(),
        },
    }
}

// ---------------------------------------------------------------------------
// Resuming and creating uploads
// ---------------------------------------------------------------------------

/// What the store remembers of an upload.
#[derive(Debug)]
pub struct StoredUpload {
    pub status: String,
    pub total_size: u64,
    pub file_sha256: String,
    pub location: String,
    pub bytes_sent: u64,
}

/// What to do with an upload before sending chunks.
#[derive(Debug)]
pub enum ResumeDecision {
    /// A finished upload of the same size: its location and final offset.
    Completed { location: String, bytes_sent: u64 },
    /// An upload in progress of the same file: ask the server for its offset.
    Resume { location: String },
    /// Nothing usable is stored: create a new upload.
    Create,
}

/// The decision for a stored upload, given the file's size and digest.
pub open spec fn resume_decision_spec(stored: Option<StoredUpload>, total_size: u64, file_sha256: Seq<char>) -> int {
    match stored {
        Some(s) => if s.status@ == "completed"@ && s.total_size == total_size {
            0
        } else if s.status@ == "in_progress"@ && s.total_size == total_size && s.file_sha256@ == file_sha256 {
            1
        } else {
            2
        },
        None => 2,
    }
}

/// Decides whether a stored upload is finished, can be resumed, or a new
/// one must be created: a completed upload of the same size is reused, an
/// upload in progress of the same size and digest is resumed, anything
/// else is created anew.
pub fn resume_decision(stored: Option<&StoredUpload>, total_size: u64, file_sha256: &str) -> (r: ResumeDecision)
    ensures
        match stored {
            Some(s) => match r {
                ResumeDecision::Completed { location, bytes_sent } => resume_decision_spec(Some(*s), total_size, file_sha256@)
                    == 0 && location@ == s.location@ && bytes_sent == s.bytes_sent,
                ResumeDecision::Resume { location } => resume_decision_spec(Some(*s), total_size, file_sha256@) == 1
                    && location@ == s.location@,
                ResumeDecision::Create => resume_decision_spec(Some(*s), total_size, file_sha256@) == 2,
            },
            None => r is Create,
        },
{
    match stored {
        None => ResumeDecision::Create,
        Some(s) => {
            let st = chars_of(s.status.as_str());
            let completed = chars_of("completed");
            let in_progress = chars_of("in_progress");
            let sha = chars_of(s.file_sha256.as_str());
            let want = chars_of(file_sha256);
            if chars_eq(&st, &completed) && s.total_size == total_size {
                ResumeDecision::Completed { location: s.location.clone(), bytes_sent: s.bytes_sent }
            } else if chars_eq(&st, &in_progress) && s.total_size == total_size && chars_eq(&sha, &want) {
                ResumeDecision::Resume { location: s.location.clone() }
            } else {
                ResumeDecision::Create
            }
        },
    }
}

/// The offset to resume from: the server's, capped at the file's size.
pub fn resumed_offset(server_offset: u64, total_size: u64) -> (r: u64)
    ensures
        r == if server_offset <= total_size {
            server_offset
        } else {
            total_size
        },
{
    if server_offset <= total_size {
        server_offset
    } else {
        total_size
    }
}

/// The metadata sent when creating an upload: the caller's entries, then
/// the file name and digest, which replace entries of the same keys.
pub open spec fn upload_metadata_spec(user: Seq<(Seq<char>, Seq<char>)>, file_name: Seq<char>, file_sha256: Seq<char>) -> Seq<
    (Seq<char>, Seq<char>),
> {
    user.filter(|e: (Seq<char>, Seq<char>)| e.0 != "filename"@ && e.0 != "sha256"@) + seq![
        ("filename"@, file_name),
        ("sha256"@, file_sha256),
    ]
}

/// Pairs of texts of pairs of strings.
pub open spec fn pair_texts(v: Seq<(String, String)>) -> Seq<(Seq<char>, Seq<char>)> {
    v.map_values(|e: (String, String)| (e.0@, e.1@))
}

/// The metadata entries of a new upload of `abs_path` with digest
/// `file_sha256`.
pub fn upload_metadata(user: Option<&Vec<(String, String)>>, abs_path: &str, file_sha256: &str) -> (r: Vec<
    (String, String),
>)
    ensures
        pair_texts(r@) == upload_metadata_spec(
            match user {
                Some(u) => pair_texts(u@),
                None => seq![],
            },
            match crate::artifacts::path_file_name(abs_path@) {
                Some(n) => n,
                None => "artifact"@,
            },
            file_sha256@,
        ),
{
    let ghost uv: Seq<(Seq<char>, Seq<char>)> = match user {
        Some(u) => pair_texts(u@),
        None => seq![],
    };
    let ghost keep = |e: (Seq<char>, Seq<char>)| e.0 != "filename"@ && e.0 != "sha256"@;
    let mut out: Vec<(String, String)> = Vec::new();
    let fname_key = chars_of("filename");
    let sha_key = chars_of("sha256");
    match user {
        Some(u) => {
            let mut i: usize = 0;
            proof {
                reveal(Seq::filter);
                assert(uv.take(0).filter(keep) =~= Seq::<(Seq<char>, Seq<char>)>::empty());
            }
            while i < u.len()
                invariant
                    i <= u.len(),
                    uv == pair_texts(u@),
                    fname_key@ == "filename"@,
                    sha_key@ == "sha256"@,
                    keep == (|e: (Seq<char>, Seq<char>)| e.0 != "filename"@ && e.0 != "sha256"@),
                    pair_texts(out@) == uv.take(i as int).filter(keep),
                decreases u.len() - i,
            {
                proof {
                    reveal(Seq::filter);
                    assert(uv.take(i + 1).drop_last() =~= uv.take(i as int));
                    assert(uv.take(i + 1).last() == (u@[i as int].0@, u@[i as int].1@));
                }
                let k = chars_of(u[i].0.as_str());
                if !chars_eq(&k, &fname_key) && !chars_eq(&k, &sha_key) {
                    let ghost before = pair_texts(out@);
                    out.push((u[i].0.clone(), u[i].1.clone()));
                    assert(pair_texts(out@) =~= before.push((u@[i as int].0@, u@[i as int].1@)));
                }
                i = i + 1;
            }
            assert(uv.take(i as int) =~= uv);
        },
        None => {
            proof {
                reveal(Seq::filter);
                assert(uv.filter(keep) =~= Seq::<(Seq<char>, Seq<char>)>::empty());
            }
            assert(pair_texts(out@) =~= uv.filter(keep));
        },
    }
    let ghost before = pair_texts(out@);
    out.push(("filename".to_owned(), file_name_from_path(abs_path)));
    out.push(("sha256".to_owned(), file_sha256.to_owned()));
    assert(pair_texts(out@) =~= before + seq![
        ("filename"@, match crate::artifacts::path_file_name(abs_path@) {
            Some(n) => n,
            None => "artifact"@,
        }),
        ("sha256"@, file_sha256@),
    ]);
    out
}

// ---------------------------------------------------------------------------
// The chunk loop
// ---------------------------------------------------------------------------

/// Length of the next chunk: the configured size (at least one byte), or
/// what remains of the file when that is less.
pub fn next_chunk_len(bytes_sent: u64, size: u64, chunk_size: u64) -> (r: u64)
    requires
        bytes_sent < size,
    ensures
        r == if (if chunk_size >= 1 { chunk_size } else { 1 }) <= size - bytes_sent {
            if chunk_size >= 1 { chunk_size } else { 1 }
        } else {
            (size - bytes_sent) as u64
        },
        1 <= r <= size - bytes_sent,
{
    let c: u64 = if chunk_size >= 1 {
        chunk_size
    } else {
        1
    };
    let remaining = size - bytes_sent;
    if c <= remaining {
        c
    } else {
        remaining
    }
}

/// The next step after a chunk was sent (and retried while its errors were
/// transient).
#[derive(Debug)]
pub enum ChunkStep {
    /// The server acknowledged; continue from this offset.
    Advance(u64),
    /// The offsets disagree: ask the server for its offset.
    Realign,
    /// Stop: record `failure` with the upload and report `message`.
    Fail { failure: String, message: String },
}

/// The step after a chunk's final outcome: an acknowledgement advances to
/// the server's offset, a mismatch realigns, any other error fails the
/// upload.
pub fn after_chunk(outcome: Result<PatchAck, TusError>) -> (r: ChunkStep)
    ensures
        match outcome {
            Ok(a) => r == ChunkStep::Advance(a.upload_offset),
            Err(TusError::Mismatch { .. }) => r is Realign,
            Err(e) => match r {
                ChunkStep::Fail { failure, message } => failure@ == crate::artifacts::tus_error_text(e)
                    && message@ == "upload failed: "@ + crate::artifacts::tus_error_text(e),
                _ => false,
            },
        },
{
    match outcome {
        Ok(a) => ChunkStep::Advance(a.upload_offset),
        Err(TusError::Mismatch { .. }) => ChunkStep::Realign,
        Err(e) => {
            let failure = e.message();
            let mut m = chars_of("upload failed: ");
            append_str(&mut m, failure.as_str());
            ChunkStep::Fail { failure, message: string_of(&m) }
        },
    }
}

/// After realigning: the server's offset to continue from, or the failure
/// to record and the message to report.
pub fn after_realign(head: Result<u64, TusError>) -> (r: Result<u64, (String, String)>)
    ensures
        match head {
            Ok(v) => r == Ok::<u64, (String, String)>(v),
            Err(e) => match r {
                Err((failure, message)) => failure@ == crate::artifacts::tus_error_text(e) && message@
                    == "HEAD after mismatch failed: "@ + crate::artifacts::tus_error_text(e),
                Ok(_) => false,
            },
        },
{
    match head {
        Ok(v) => Ok(v),
        Err(e) => {
            let failure = e.message();
            let mut m = chars_of("HEAD after mismatch failed: ");
            append_str(&mut m, failure.as_str());
            Err((failure, string_of(&m)))
        },
    }
}

/// The description of the upload tool: the accepted types, sorted, and the
/// size limit.
pub open spec fn upload_description_spec(accepted: Seq<Seq<char>>, max_size_bytes: u64) -> Seq<char> {
    "Upload a file from your sandbox to the workspace. The file is streamed in resumable chunks; bridge handles retry and resume on transient failures. Accepted types: "@
        + join(sort_by_key(accepted.map_values(|a: Seq<char>| (a, a))).map_values(|p: (Seq<char>, Seq<char>)| p.1), ", "@)
        + ". Max size: "@ + decimal(max_size_bytes as nat) + " bytes."@
}

/// The tool's description for the configured accepted types and size limit.
pub fn upload_description(accepted: &Vec<String>, max_size_bytes: u64) -> (r: String)
    ensures
        r@ == upload_description_spec(accepted@.map_values(|s: String| s@), max_size_bytes),
{
    let ghost av = accepted@.map_values(|s: String| s@);
    let mut pairs: Vec<(Vec<char>, Vec<char>)> = Vec::new();
    let mut i: usize = 0;
    while i < accepted.len()
        invariant
            i <= accepted.len(),
            av == accepted@.map_values(|s: String| s@),
            pairs@.map_values(|p: (Vec<char>, Vec<char>)| (p.0@, p.1@)) == av.take(i as int).map_values(
                |a: Seq<char>| (a, a),
            ),
        decreases accepted.len() - i,
    {
        let a = chars_of(accepted[i].as_str());
        let b = chars_of(accepted[i].as_str());
        let ghost before = pairs@.map_values(|p: (Vec<char>, Vec<char>)| (p.0@, p.1@));
        pairs.push((a, b));
        assert(pairs@.map_values(|p: (Vec<char>, Vec<char>)| (p.0@, p.1@)) =~= before.push(
            (av[i as int], av[i as int]),
        ));
        assert(av.take(i + 1).map_values(|a: Seq<char>| (a, a)) =~= av.take(i as int).map_values(
            |a: Seq<char>| (a, a),
        ).push((av[i as int], av[i as int])));
        i = i + 1;
    }
    assert(av.take(i as int) =~= av);
    let sorted = sort_pairs_pub(&pairs);
    let mut items: Vec<Vec<char>> = Vec::new();
    let ghost sv = sort_by_key(av.map_values(|a: Seq<char>| (a, a)));
    let mut k: usize = 0;
    while k < sorted.len()
        invariant
            k <= sorted.len(),
            sorted@.map_values(|p: (Vec<char>, Vec<char>)| (p.0@, p.1@)) == sv,
            views(items@) == sv.map_values(|p: (Seq<char>, Seq<char>)| p.1).take(k as int),
        decreases sorted.len() - k,
    {
        let it = crate::text::slice_vec(&sorted[k].1, 0, sorted[k].1.len());
        proof {
            assert(sorted@[k as int].1@.subrange(0, sorted@[k as int].1@.len() as int) =~= sorted@[k as int].1@);
            assert(sv[k as int] == (sorted@[k as int].0@, sorted@[k as int].1@));
        }
        let ghost before = views(items@);
        items.push(it);
        assert(views(items@) =~= before.push(sv[k as int].1));
        assert(views(items@) =~= sv.map_values(|p: (Seq<char>, Seq<char>)| p.1).take(k + 1));
        k = k + 1;
    }
    assert(sv.map_values(|p: (Seq<char>, Seq<char>)| p.1).take(k as int) =~= sv.map_values(
        |p: (Seq<char>, Seq<char>)| p.1,
    ));
    let mut out = chars_of(
        "Upload a file from your sandbox to the workspace. The file is streamed in resumable chunks; bridge handles retry and resume on transient failures. Accepted types: ",
    );
    let sep = chars_of(", ");
    let listed = join_vec(&items, &sep);
    append_chars(&mut out, &listed);
    append_str(&mut out, ". Max size: ");
    append_chars(&mut out, &decimal_vec(max_size_bytes));
    append_str(&mut out, " bytes.");
    string_of(&out)
}

} // verus!
