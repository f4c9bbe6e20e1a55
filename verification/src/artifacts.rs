//! Workspace uploads: the errors of the resumable-upload client, the
//! resolution of the `Location` a server returns, the upload metadata
//! header, and the keys that make uploads idempotent.
use vstd::prelude::*;
use base64::Engine;
use sha2::Digest;
use crate::read::{insert_by_key, sort_by_key, str_le};
use crate::text::{append_chars, append_str, chars_of, contains, decimal, decimal_vec, find_from, index_of, index_of_exec, join, join_vec, lemma_views_push, slice_vec, starts_with, starts_with_exec, string_of, views};

verus! {

// ---------------------------------------------------------------------------
// Errors of the upload client
// ---------------------------------------------------------------------------

/// Errors of the upload client, by what the caller should do: retry, realign
/// its offset with the server's, or stop.
#[derive(Debug)]
pub enum TusError {
    Transient(String),
    Mismatch { server: u64, client: u64 },
    Permanent(String),
}

/// The text of an upload client error.
pub open spec fn tus_error_text(e: TusError) -> Seq<char> {
    match e {
        TusError::Transient(m) => "transient TUS error: "@ + m@,
        TusError::Mismatch { server, client } => "offset mismatch (server expected "@ + decimal(server as nat)
            + ", client sent "@ + decimal(client as nat) + ")"@,
        TusError::Permanent(m) => "permanent TUS error: "@ + m@,
    }
}

impl TusError {
    /// Whether the operation may be retried as it is.
    pub fn is_transient(&self) -> (r: bool)
        ensures
            r == (self is Transient),
    {
        match self {
            TusError::Transient(_) => true,
            _ => false,
        }
    }

    /// The error's text.
    pub fn message(&self) -> (r: String)
        ensures
            r@ == tus_error_text(*self),
    {
        let out = match self {
            TusError::Transient(m) => {
                let mut o = chars_of("transient TUS error: ");
                append_str(&mut o, m.as_str());
                o
            },
            TusError::Mismatch { server, client } => {
                let mut o = chars_of("offset mismatch (server expected ");
                append_chars(&mut o, &decimal_vec(*server));
                append_str(&mut o, ", client sent ");
                append_chars(&mut o, &decimal_vec(*client));
                append_str(&mut o, ")");
                o
            },
            TusError::Permanent(m) => {
                let mut o = chars_of("permanent TUS error: ");
                append_str(&mut o, m.as_str());
                o
            },
        };
        string_of(&out)
    }
}

/// A server's acknowledgement of an appended chunk: its new offset.
#[derive(Clone, Copy, Debug)]
pub struct PatchAck {
    pub upload_offset: u64,
}

/// Arguments of the upload tool.
#[derive(Debug)]
pub struct UploadArgs {
    pub path: String,
    pub content_type: Option<String>,
    pub metadata: Option<Vec<(String, String)>>,
}

// ---------------------------------------------------------------------------
// Locations
// ---------------------------------------------------------------------------

/// The `Location` of a new upload, resolved against the upload URL: kept
/// when absolute; else joined to the URL's origin (scheme and host), or to
/// the whole URL when it has no path.
pub open spec fn resolve_location_spec(upload_url: Seq<char>, location: Seq<char>) -> Seq<char> {
    if starts_with(location, "http://"@) || starts_with(location, "https://"@) {
        location
    } else {
        let se = find_from(upload_url, "://"@, 0);
        if se < 0 {
            location
        } else {
            let after = upload_url.skip(se + 3);
            let slash = index_of(after, '/');
            let base = if slash >= 0 { upload_url.take(se + 3 + slash) } else { upload_url };
            if starts_with(location, "/"@) {
                base + location
            } else {
                base + "/"@ + location
            }
        }
    }
}

/// Resolves a possibly relative `Location` against the upload URL.
pub fn resolve_location(upload_url: &str, location: &str) -> (r: String)
    ensures
        r@ == resolve_location_spec(upload_url@, location@),
{
    proof {
        reveal_strlit("://");
    }
    let u = chars_of(upload_url);
    let l = chars_of(location);
    if starts_with_exec(&l, &chars_of("http://")) || starts_with_exec(&l, &chars_of("https://")) {
        return location.to_owned();
    }
    proof {
        crate::text::lemma_find_from_props(u@, "://"@, 0);
    }
    match crate::text::find_from_exec(&u, &chars_of("://"), 0) {
        None => location.to_owned(),
        Some(se) => {
            assert(crate::text::occurs_at(u@, "://"@, se as int));
            assert("://"@.len() == 3);
            assert(se + 3 <= u@.len());
            assert(se + 3 <= u.len());
            let after = slice_vec(&u, se + 3, u.len());
            assert(u@.subrange(se + 3, u@.len() as int) =~= u@.skip(se + 3));
            let base = match index_of_exec(&after, '/') {
                Some(slash) => {
                    proof {
                        crate::text::lemma_index_of_props(after@, '/');
                    }
                    let b = slice_vec(&u, 0, se + 3 + slash);
                    assert(u@.subrange(0, se + 3 + slash) =~= u@.take(se + 3 + slash));
                    b
                },
                None => u,
            };
            let mut out = base;
            if starts_with_exec(&l, &chars_of("/")) {
                append_chars(&mut out, &l);
            } else {
                append_str(&mut out, "/");
                append_chars(&mut out, &l);
            }
            string_of(&out)
        },
    }
}

/// The file name `std::path::Path::file_name` gives for a path.
pub uninterp spec fn path_file_name(p: Seq<char>) -> Option<Seq<char>>;

/// Calls `std::path::Path::file_name` and converts the result to a
/// `String`; the result is named `path_file_name`.
#[verifier::external_body]
pub(crate) fn file_name_of(path: &str) -> (r: Option<String>)
    ensures
        match r {
            Some(n) => path_file_name(path@) == Some(n@),
            None => path_file_name(path@) is None,
        },
{
    std::path::Path::new(path).file_name().and_then(|s| s.to_str()).map(|s| s.to_owned())
}

/// The uploaded file's name: the path's file name, or `artifact`.
pub fn file_name_from_path(abs_path: &str) -> (r: String)
    ensures
        r@ == match path_file_name(abs_path@) {
            Some(n) => n,
            None => "artifact"@,
        },
{
    match file_name_of(abs_path) {
        Some(n) => n,
        None => "artifact".to_owned(),
    }
}

// ---------------------------------------------------------------------------
// Idempotency keys
// ---------------------------------------------------------------------------

/// The SHA-256 digest `sha2::Sha256` computes.
pub uninterp spec fn sha256(data: Seq<u8>) -> Seq<u8>;

/// Feeds `data` to a `sha2::Sha256` hasher and finalizes it; the result is
/// named `sha256`.
#[verifier::external_body]
fn sha256_digest(data: &[u8]) -> (r: Vec<u8>)
    ensures
        r@ == sha256(data@),
{
    let mut hasher = sha2::Sha256::new();
    hasher.update(data);
    hasher.finalize().to_vec()
}

/// The lowercase hexadecimal digit of `d < 16`.
pub open spec fn hex_digit(d: u8) -> char {
    if d < 10 {
        (('0' as u8) + d) as char
    } else {
        (('a' as u8) + d - 10) as char
    }
}

/// Two lowercase hexadecimal digits per byte, high nibble first.
pub open spec fn hex_encoding(data: Seq<u8>) -> Seq<char>
    decreases data.len(),
{
    if data.len() == 0 {
        seq![]
    } else {
        hex_encoding(data.drop_last()) + seq![hex_digit(data.last() / 16), hex_digit(data.last() % 16)]
    }
}

/// Calls `hex::encode`: each byte becomes two lowercase hexadecimal digits,
/// high nibble first.
#[verifier::external_body]
fn hex_encode(data: &[u8]) -> (r: String)
    ensures
        r@ == hex_encoding(data@),
{
    hex::encode(data)
}

/// The bytes hashed for an idempotency key: the agent, the path and the
/// file's digest, separated by zero bytes.
pub open spec fn idempotency_input(agent_id: Seq<u8>, abs_path: Seq<u8>, file_sha256: Seq<u8>) -> Seq<u8> {
    agent_id + seq![0u8] + abs_path + seq![0u8] + file_sha256
}

fn append_bytes(a: &mut Vec<u8>, b: &[u8])
    ensures
        final(a)@ == old(a)@ + b@,
{
    let mut i: usize = 0;
    while i < b.len()
        invariant
            i <= b.len(),
            a@ == old(a)@ + b@.take(i as int),
        decreases b.len() - i,
    {
        a.push(b[i]);
        assert(old(a)@ + b@.take(i as int) + seq![b@[i as int]] =~= old(a)@ + b@.take(i + 1));
        i = i + 1;
    }
    assert(b@.take(b@.len() as int) =~= b@);
}

/// The key under which an upload of a file by an agent is deduplicated:
/// hex of the SHA-256 of agent, path and file digest.
pub fn derive_idempotency_key(agent_id: &str, abs_path: &str, file_sha256: &str) -> (r: String)
    ensures
        r@ == hex_encoding(sha256(idempotency_input(vstd::utf8::encode_utf8(agent_id@), vstd::utf8::encode_utf8(abs_path@), vstd::utf8::encode_utf8(file_sha256@)))),
{
    let mut data: Vec<u8> = Vec::new();
    append_bytes(&mut data, agent_id.as_bytes());
    data.push(0u8);
    append_bytes(&mut data, abs_path.as_bytes());
    data.push(0u8);
    append_bytes(&mut data, file_sha256.as_bytes());
    assert(data@ =~= idempotency_input(vstd::utf8::encode_utf8(agent_id@), vstd::utf8::encode_utf8(abs_path@), vstd::utf8::encode_utf8(file_sha256@)));
    let digest = sha256_digest(data.as_slice());
    hex_encode(digest.as_slice())
}

/// The digest of a whole file's contents, as lowercase hexadecimal.
pub fn file_digest(data: &[u8]) -> (r: String)
    ensures
        r@ == hex_encoding(sha256(data@)),
{
    let digest = sha256_digest(data);
    hex_encode(digest.as_slice())
}

// ---------------------------------------------------------------------------
// Upload metadata
// ---------------------------------------------------------------------------

/// The standard Base64 encoding `base64`'s `STANDARD` engine computes.
pub uninterp spec fn base64_standard(data: Seq<u8>) -> Seq<char>;

/// Calls `base64::engine::general_purpose::STANDARD.encode`; the result is
/// named `base64_standard`.
#[verifier::external_body]
pub(crate) fn base64_encode(data: &[u8]) -> (r: String)
    ensures
        r@ == base64_standard(data@),
{
    base64::engine::general_purpose::STANDARD.encode(data)
}

/// A metadata key the protocol accepts: ASCII, not empty, without spaces
/// or commas.
pub open spec fn valid_meta_key(k: Seq<char>) -> bool {
    &&& k.len() > 0
    &&& forall|i: int| 0 <= i < k.len() ==> (#[trigger] k[i] as u32) < 128
    &&& !k.contains(' ')
    &&& !k.contains(',')
}

/// One metadata entry: the key, a space and the Base64 of the value's bytes.
pub open spec fn meta_part(k: Seq<char>, v_bytes: Seq<u8>) -> Seq<char> {
    k + " "@ + base64_standard(v_bytes)
}

/// The metadata parts of the valid keys, in the given order.
pub open spec fn meta_parts(entries: Seq<(Seq<char>, Seq<u8>)>) -> Seq<Seq<char>>
    decreases entries.len(),
{
    if entries.len() == 0 {
        seq![]
    } else {
        let rest = meta_parts(entries.drop_last());
        let e = entries.last();
        if valid_meta_key(e.0) {
            rest.push(meta_part(e.0, e.1))
        } else {
            rest
        }
    }
}

/// The `Upload-Metadata` header: the parts sorted and joined by commas.
pub open spec fn encode_metadata_spec(entries: Seq<(Seq<char>, Seq<u8>)>) -> Seq<char> {
    join(sort_by_key(meta_parts(entries).map_values(|p: Seq<char>| (p, p))).map_values(|q: (Seq<char>, Seq<char>)| q.1), ","@)
}

fn valid_meta_key_exec(k: &str) -> (r: bool)
    ensures
        r == valid_meta_key(k@),
{
    let cs = chars_of(k);
    if cs.len() == 0 {
        return false;
    }
    let mut i: usize = 0;
    while i < cs.len()
        invariant
            i <= cs.len(),
            cs@ == k@,
            forall|j: int| 0 <= j < i ==> (#[trigger] cs@[j] as u32) < 128 && cs@[j] != ' ' && cs@[j] != ',',
        decreases cs.len() - i,
    {
        if (cs[i] as u32) >= 128 || cs[i] == ' ' || cs[i] == ',' {
            assert(!((cs@[i as int] as u32) < 128) || k@.contains(cs@[i as int]));
            return false;
        }
        i = i + 1;
    }
    true
}

/// The `Upload-Metadata` header for `(key, value)` pairs: `key base64(value)`
/// for each key the protocol accepts, sorted, joined by commas.
pub fn encode_metadata(meta: &[(String, String)]) -> (r: String)
    ensures
        r@ == encode_metadata_spec(meta@.map_values(|e: (String, String)| (e.0@, vstd::utf8::encode_utf8(e.1@)))),
{
    let ghost ev = meta@.map_values(|e: (String, String)| (e.0@, vstd::utf8::encode_utf8(e.1@)));
    let mut parts: Vec<(Vec<char>, Vec<char>)> = Vec::new();
    let mut i: usize = 0;
    assert(ev.take(0) =~= Seq::<(Seq<char>, Seq<u8>)>::empty());
    while i < meta.len()
        invariant
            i <= meta.len(),
            ev == meta@.map_values(|e: (String, String)| (e.0@, vstd::utf8::encode_utf8(e.1@))),
            parts@.map_values(|p: (Vec<char>, Vec<char>)| (p.0@, p.1@)) == meta_parts(ev.take(i as int)).map_values(
                |p: Seq<char>| (p, p),
            ),
        decreases meta.len() - i,
    {
        proof {
            assert(ev.take(i + 1).drop_last() =~= ev.take(i as int));
            assert(ev.take(i + 1).last() == ev[i as int]);
        }
        let k = &meta[i].0;
        if valid_meta_key_exec(k.as_str()) {
            let b64 = base64_encode(meta[i].1.as_str().as_bytes());
            let mut p = chars_of(k.as_str());
            append_str(&mut p, " ");
            append_str(&mut p, b64.as_str());
            let q = slice_vec(&p, 0, p.len());
            assert(p@.subrange(0, p@.len() as int) =~= p@);
            proof {
                assert(parts@.push((p, q)).map_values(|p: (Vec<char>, Vec<char>)| (p.0@, p.1@)) =~= parts@.map_values(
                    |p: (Vec<char>, Vec<char>)| (p.0@, p.1@),
                ).push((p@, q@)));
                assert(meta_parts(ev.take(i + 1)) == meta_parts(ev.take(i as int)).push(p@));
                assert(meta_parts(ev.take(i + 1)).map_values(|p: Seq<char>| (p, p)) =~= meta_parts(ev.take(i as int)).map_values(
                    |p: Seq<char>| (p, p),
                ).push((p@, p@)));
            }
            parts.push((p, q));
        } else {
            assert(meta_parts(ev.take(i + 1)) == meta_parts(ev.take(i as int)));
        }
        i = i + 1;
    }
    assert(ev.take(meta@.len() as int) =~= ev);
    let sorted = crate::read::sort_pairs_pub(&parts);
    let mut items: Vec<Vec<char>> = Vec::new();
    let ghost sv = sort_by_key(meta_parts(ev).map_values(|p: Seq<char>| (p, p))).map_values(|q: (Seq<char>, Seq<char>)| q.1);
    let mut k: usize = 0;
    while k < sorted.len()
        invariant
            k <= sorted.len(),
            sv == sorted@.map_values(|p: (Vec<char>, Vec<char>)| (p.0@, p.1@)).map_values(|q: (Seq<char>, Seq<char>)| q.1),
            views(items@) == sv.take(k as int),
        decreases sorted.len() - k,
    {
        let x = slice_vec(&sorted[k].1, 0, sorted[k].1.len());
        proof {
            assert(sorted@[k as int].1@.subrange(0, sorted@[k as int].1@.len() as int) =~= sorted@[k as int].1@);
            lemma_views_push(items@, x);
            assert(sv.take(k + 1) =~= sv.take(k as int).push(x@));
        }
        items.push(x);
        k = k + 1;
    }
    assert(sv.take(sorted@.len() as int) =~= sv);
    let joined = join_vec(&items, &chars_of(","));
    string_of(&joined)
}

/// The `Upload-Checksum` value of a chunk: `sha256 ` and the Base64 of
/// the chunk's SHA-256 digest.
pub fn chunk_checksum(chunk: &[u8]) -> (r: String)
    ensures
        r@ == "sha256 "@ + base64_standard(sha256(chunk@)),
{
    let digest = sha256_digest(chunk);
    let b64 = base64_encode(digest.as_slice());
    let mut out = chars_of("sha256 ");
    append_str(&mut out, b64.as_str());
    string_of(&out)
}

} // verus!
