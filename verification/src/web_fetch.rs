//! The web-fetch tool's logic: the decisions taken on a response (status,
//! size, content type) and the shaping of its body into the requested
//! format.
use vstd::prelude::*;
use crate::artifacts::{base64_encode, base64_standard};
use crate::bash::{lossy_text, utf8_lossy};
use crate::text::{append_chars, append_str, chars_eq, chars_of, contains, decimal, lines_of, lines_vec, starts_with, starts_with_exec, string_of, trim, trim_vec, views};

verus! {

/// Content longer than this many characters is cut, unless the caller
/// gives another limit.
pub const DEFAULT_MAX_LENGTH: usize = 50000;

/// Largest response body accepted, in bytes.
pub const MAX_RESPONSE_SIZE: usize = 5242880;

/// Output format of a fetch.
#[derive(Clone, Copy, PartialEq, Eq, Structural, Debug)]
pub enum FetchFormat {
    Markdown,
    Text,
    Html,
}

impl Default for FetchFormat {
    fn default() -> (r: Self)
        ensures
            r == FetchFormat::Markdown,
    {
        FetchFormat::Markdown
    }
}

/// Result reported by the web-fetch tool.
#[derive(Debug)]
pub struct FetchResult {
    pub title: Option<String>,
    pub content: String,
    pub url: String,
}

/// Arguments of the web-fetch tool.
#[derive(Debug)]
pub struct WebFetchArgs {
    pub url: String,
    pub max_length: Option<usize>,
    pub format: FetchFormat,
}

/// The `Accept` header sent for a format.
pub open spec fn accept_header_spec(f: FetchFormat) -> Seq<char> {
    match f {
        FetchFormat::Markdown => "text/markdown;q=1.0, text/x-markdown;q=0.9, text/plain;q=0.8, text/html;q=0.7, */*;q=0.1"@,
        FetchFormat::Text => "text/plain;q=1.0, text/markdown;q=0.9, text/html;q=0.8, */*;q=0.1"@,
        FetchFormat::Html => "text/html;q=1.0, application/xhtml+xml;q=0.9, text/plain;q=0.8, */*;q=0.1"@,
    }
}

/// The `Accept` header sent for a format.
pub fn accept_header(format: FetchFormat) -> (r: &'static str)
    ensures
        r@ == accept_header_spec(format),
{
    match format {
        FetchFormat::Markdown => "text/markdown;q=1.0, text/x-markdown;q=0.9, text/plain;q=0.8, text/html;q=0.7, */*;q=0.1",
        FetchFormat::Text => "text/plain;q=1.0, text/markdown;q=0.9, text/html;q=0.8, */*;q=0.1",
        FetchFormat::Html => "text/html;q=1.0, application/xhtml+xml;q=0.9, text/plain;q=0.8, */*;q=0.1",
    }
}

/// The text cut to `max_chars` characters, with a note, when longer.
pub open spec fn truncate_to_char_limit_spec(s: Seq<char>, max_chars: nat) -> Seq<char> {
    if s.len() <= max_chars {
        s
    } else {
        s.take(max_chars as int) + "\n\n[Content truncated...]"@
    }
}

/// Cuts a text to a number of characters.
pub fn truncate_to_char_limit(s: &str, max_chars: usize) -> (r: String)
    ensures
        r@ == truncate_to_char_limit_spec(s@, max_chars as nat),
{
    let cs = chars_of(s);
    if cs.len() <= max_chars {
        return s.to_owned();
    }
    let mut out = crate::text::slice_vec(&cs, 0, max_chars);
    assert(cs@.subrange(0, max_chars as int) =~= cs@.take(max_chars as int));
    append_str(&mut out, "\n\n[Content truncated...]");
    string_of(&out)
}

// ---------------------------------------------------------------------------
// Responses
// ---------------------------------------------------------------------------

/// The error of a request that could not be sent.
pub open spec fn send_error_spec(is_timeout: bool, is_redirect: bool, err: Seq<char>) -> Seq<char> {
    if is_timeout {
        "Request timed out: "@ + err
    } else if is_redirect {
        "Too many redirects: "@ + err
    } else {
        "Request failed: "@ + err
    }
}

/// The error of a request that could not be sent.
pub fn send_error_message(is_timeout: bool, is_redirect: bool, err: &str) -> (r: String)
    ensures
        r@ == send_error_spec(is_timeout, is_redirect, err@),
{
    let mut out = if is_timeout {
        chars_of("Request timed out: ")
    } else if is_redirect {
        chars_of("Too many redirects: ")
    } else {
        chars_of("Request failed: ")
    };
    append_str(&mut out, err);
    string_of(&out)
}

/// A URL to fetch must hold more than whitespace.
pub fn check_fetch_url(url: &str) -> (r: Result<(), String>)
    ensures
        trim(url@).len() == 0 ==> (r matches Err(e) && e@ == "URL must not be empty"@),
        trim(url@).len() > 0 ==> r is Ok,
{
    if trim_vec(&chars_of(url)).len() == 0 {
        Err("URL must not be empty".to_owned())
    } else {
        Ok(())
    }
}

/// What to do with a response's status.
#[derive(Debug)]
pub enum StatusDecision {
    Proceed,
    RetryWithSimpleAgent,
    Fail(String),
}

/// Error for a failed status, given the status as displayed.
pub open spec fn http_error_msg(status_text: Seq<char>, url: Seq<char>) -> Seq<char> {
    "HTTP error "@ + status_text + " for URL: "@ + url
}

fn http_error(status_text: &str, url: &str) -> (r: String)
    ensures
        r@ == http_error_msg(status_text@, url@),
{
    let mut out = chars_of("HTTP error ");
    append_str(&mut out, status_text);
    append_str(&mut out, " for URL: ");
    append_str(&mut out, url);
    string_of(&out)
}

/// The decision on a status: a Cloudflare challenge on 403 is retried with
/// a simpler agent, other statuses outside 2xx fail, 2xx proceeds.
pub fn status_decision(status: u16, status_text: &str, cf_mitigated: Option<&str>, final_url: &str) -> (r: StatusDecision)
    ensures
        (status == 403 && (cf_mitigated matches Some(c) && c@ == "challenge"@)) ==> r is RetryWithSimpleAgent,
        status == 403 && !(cf_mitigated matches Some(c) && c@ == "challenge"@) ==> (r matches StatusDecision::Fail(m) && m@ == http_error_msg(status_text@, final_url@)),
        status != 403 && !(200 <= status <= 299) ==> (r matches StatusDecision::Fail(m) && m@ == http_error_msg(status_text@, final_url@)),
        status != 403 && 200 <= status <= 299 ==> r is Proceed,
{
    if status == 403 {
        let challenged = match cf_mitigated {
            Some(c) => chars_eq(&chars_of(c), &chars_of("challenge")),
            None => false,
        };
        if challenged {
            StatusDecision::RetryWithSimpleAgent
        } else {
            StatusDecision::Fail(http_error(status_text, final_url))
        }
    } else if !(200 <= status && status <= 299) {
        StatusDecision::Fail(http_error(status_text, final_url))
    } else {
        StatusDecision::Proceed
    }
}

/// The decision on the status of the retried request: proceed on 2xx, else
/// fail naming the first response's URL.
pub fn retry_decision(status: u16, status_text: &str, final_url: &str) -> (r: Result<(), String>)
    ensures
        200 <= status <= 299 ==> r is Ok,
        !(200 <= status <= 299) ==> (r matches Err(m) && m@ == http_error_msg(status_text@, final_url@)),
{
    if 200 <= status && status <= 299 {
        Ok(())
    } else {
        Err(http_error(status_text, final_url))
    }
}

/// Error for a body above the size limit.
pub open spec fn too_large_msg() -> Seq<char> {
    "Response too large (exceeds 5MB limit)"@
}

/// Refusal of a declared content length above the limit.
pub fn check_content_length(content_length: Option<usize>) -> (r: Result<(), String>)
    ensures
        (content_length matches Some(n) && n > MAX_RESPONSE_SIZE) ==> (r matches Err(m) && m@ == too_large_msg()),
        !(content_length matches Some(n) && n > MAX_RESPONSE_SIZE) ==> r is Ok,
{
    match content_length {
        Some(n) => {
            if n > MAX_RESPONSE_SIZE {
                return Err("Response too large (exceeds 5MB limit)".to_owned());
            }
            Ok(())
        },
        None => Ok(()),
    }
}

/// An image content type other than SVG is returned as data.
pub open spec fn is_image_type(ct: Seq<char>) -> bool {
    starts_with(ct, "image/"@) && ct != "image/svg+xml"@ && !contains(ct, "vnd.fastbidsheet"@)
}

/// Whether a content type is an image returned as data.
pub fn is_image_content_type(ct: &str) -> (r: bool)
    ensures
        r == is_image_type(ct@),
{
    let c = chars_of(ct);
    let needle = chars_of("vnd.fastbidsheet");
    let found = match crate::text::find_from_exec(&c, &needle, 0) {
        Some(_) => true,
        None => false,
    };
    proof {
        crate::text::lemma_find_from_props(c@, needle@, 0);
        if !found {
            assert(!contains(ct@, "vnd.fastbidsheet"@));
        } else {
            assert(contains(ct@, "vnd.fastbidsheet"@));
        }
    }
    starts_with_exec(&c, &chars_of("image/")) && !chars_eq(&c, &chars_of("image/svg+xml")) && !found
}

/// The result for an image: a `data:` URL of the Base64 body, titled with
/// the type.
pub fn image_result(content_type: &str, body: &[u8], final_url: &str) -> (r: Result<FetchResult, String>)
    ensures
        body@.len() > MAX_RESPONSE_SIZE ==> (r matches Err(m) && m@ == too_large_msg()),
        body@.len() <= MAX_RESPONSE_SIZE ==> (r matches Ok(res) && res.url@ == final_url@ && res.content@ == "data:"@
            + content_type@ + ";base64,"@ + base64_standard(body@) && (res.title matches Some(t) && t@ == "Image ("@
            + content_type@ + ")"@)),
{
    if body.len() > MAX_RESPONSE_SIZE {
        return Err("Response too large (exceeds 5MB limit)".to_owned());
    }
    let b64 = base64_encode(body);
    let mut content = chars_of("data:");
    append_str(&mut content, content_type);
    append_str(&mut content, ";base64,");
    append_str(&mut content, b64.as_str());
    let mut title = chars_of("Image (");
    append_str(&mut title, content_type);
    append_str(&mut title, ")");
    Ok(FetchResult { title: Some(string_of(&title)), content: string_of(&content), url: final_url.to_owned() })
}

/// The type and subtype `mime` parses from a content type, lowercase; `None`
/// when it does not parse.
pub uninterp spec fn mime_parts(ct: Seq<char>) -> Option<(Seq<char>, Seq<char>)>;

/// Parses a content type with `str::parse::<mime::Mime>` and returns
/// `type_()` and `subtype()` as strings; the result is named `mime_parts`.
#[verifier::external_body]
fn parse_mime(ct: &str) -> (r: Option<(String, String)>)
    ensures
        match r {
            Some((t, s)) => mime_parts(ct@) == Some((t@, s@)),
            None => mime_parts(ct@) is None,
        },
{
    ct.parse::<mime::Mime>().ok().map(|m| (m.type_().as_str().to_owned(), m.subtype().as_str().to_owned()))
}

/// A content type read as HTML: `text/html`, `application/xhtml...`, or SVG.
pub open spec fn is_html_type(ct: Seq<char>) -> bool {
    match mime_parts(ct) {
        Some((t, s)) => (t == "text"@ && s == "html"@) || (t == "application"@ && starts_with(s, "xhtml"@))
            || starts_with(ct, "image/svg+xml"@),
        None => false,
    }
}

/// Error for a content type that is not HTML.
pub open spec fn non_html_msg(ct: Seq<char>) -> Seq<char> {
    "Non-HTML content type: "@ + ct + ". Only HTML pages are supported."@
}

/// Refusal of a declared content type other than HTML; a missing content
/// type is accepted.
pub fn check_html_content_type(ct: &str) -> (r: Result<(), String>)
    ensures
        (ct@.len() == 0 || is_html_type(ct@)) ==> r is Ok,
        !(ct@.len() == 0 || is_html_type(ct@)) ==> (r matches Err(m) && m@ == non_html_msg(ct@)),
{
    if ct.is_empty() {
        return Ok(());
    }
    let c = chars_of(ct);
    let is_html = match parse_mime(ct) {
        Some((t, s)) => {
            let tc = chars_of(t.as_str());
            let sc = chars_of(s.as_str());
            (chars_eq(&tc, &chars_of("text")) && chars_eq(&sc, &chars_of("html"))) || (chars_eq(&tc, &chars_of("application"))
                && starts_with_exec(&sc, &chars_of("xhtml"))) || starts_with_exec(&c, &chars_of("image/svg+xml"))
        },
        None => false,
    };
    if !is_html {
        let mut m = chars_of("Non-HTML content type: ");
        append_str(&mut m, ct);
        append_str(&mut m, ". Only HTML pages are supported.");
        return Err(string_of(&m));
    }
    Ok(())
}

// ---------------------------------------------------------------------------
// Page content
// ---------------------------------------------------------------------------

/// The Markdown `htmd::convert` produces, or `None` when it fails.
pub uninterp spec fn htmd_markdown(html: Seq<char>) -> Option<Seq<char>>;

/// Calls `htmd::convert`; the result is named `htmd_markdown`.
#[verifier::external_body]
fn htmd_convert(html: &str) -> (r: Option<String>)
    ensures
        match r {
            Some(m) => htmd_markdown(html@) == Some(m@),
            None => htmd_markdown(html@) is None,
        },
{
    htmd::convert(html).ok()
}

/// The Markdown `htmd` makes of a page, or nothing when it fails.
pub fn fallback_convert(html: &str) -> (r: String)
    ensures
        r@ == match htmd_markdown(html@) {
            Some(m) => m,
            None => seq![],
        },
{
    match htmd_convert(html) {
        Some(m) => m,
        None => String::new(),
    }
}

/// The title and text of the article that `dom_smoothie`'s readability
/// extraction finds in a page, in Markdown text mode; `None` when it finds
/// none.
pub uninterp spec fn readable_article(html: Seq<char>, url: Seq<char>) -> Option<(Seq<char>, Seq<char>)>;

/// Runs `dom_smoothie::Readability::new` on the page and its URL with the
/// Markdown text mode, then `parse`, and returns the article's title and
/// text content; the result is named `readable_article`.
#[verifier::external_body]
fn extract_article(html: &str, url: &str) -> (r: Option<(String, String)>)
    ensures
        match r {
            Some((t, c)) => readable_article(html@, url@) == Some((t@, c@)),
            None => readable_article(html@, url@) is None,
        },
{
    let config = dom_smoothie::Config { text_mode: dom_smoothie::TextMode::Markdown, ..Default::default() };
    let mut readability = dom_smoothie::Readability::new(html, Some(url), Some(config)).ok()?;
    readability.parse().ok().map(|a| (a.title, a.text_content.to_string()))
}

/// Converted Markdown with runs of blank lines collapsed: from line `i` on,
/// after `acc` with `blanks` blank lines just seen.
pub open spec fn collapse_blank_lines(ls: Seq<Seq<char>>, i: int, acc: Seq<char>, blanks: nat) -> Seq<char>
    decreases ls.len() - i,
{
    if i < 0 || i >= ls.len() {
        acc
    } else if trim(ls[i]).len() == 0 {
        let acc2 = if blanks + 1 <= 2 { acc.push('\n') } else { acc };
        collapse_blank_lines(ls, i + 1, acc2, blanks + 1)
    } else {
        collapse_blank_lines(ls, i + 1, acc + ls[i] + "\n"@, 0)
    }
}

/// Plain text of a page: its Markdown conversion (empty when that fails),
/// with at most two blank lines in a row, trimmed.
pub open spec fn strip_html_tags_spec(html: Seq<char>) -> Seq<char> {
    let md = match htmd_markdown(html) {
        Some(m) => m,
        None => seq![],
    };
    trim(collapse_blank_lines(lines_of(md), 0, seq![], 0))
}

/// Plain text of a page.
pub fn strip_html_tags(html: &str) -> (r: String)
    ensures
        r@ == strip_html_tags_spec(html@),
{
    let md = match htmd_convert(html) {
        Some(m) => m,
        None => String::new(),
    };
    let mc = chars_of(md.as_str());
    let ls = lines_vec(&mc);
    let ghost lv = views(ls@);
    let mut acc: Vec<char> = Vec::new();
    let mut blanks: usize = 0;
    let mut i: usize = 0;
    while i < ls.len()
        invariant
            i <= ls.len(),
            lv == views(ls@),
            blanks <= i,
            collapse_blank_lines(lv, 0, seq![], 0) == collapse_blank_lines(lv, i as int, acc@, blanks as nat),
        decreases ls.len() - i,
    {
        assert(lv[i as int] == ls@[i as int]@);
        let t = trim_vec(&ls[i]);
        if t.len() == 0 {
            if blanks + 1 <= 2 {
                acc.push('\n');
            }
            blanks = blanks + 1;
        } else {
            blanks = 0;
            append_chars(&mut acc, &ls[i]);
            append_str(&mut acc, "\n");
        }
        i = i + 1;
    }
    let out = trim_vec(&acc);
    string_of(&out)
}

/// The fetched page's content in the requested format, each cut to the
/// character limit: raw HTML; plain text; or the readable article (titled
/// when its title is not empty), falling back to the Markdown conversion of
/// the whole page. An empty page gives empty content.
pub open spec fn page_content_spec(html: Seq<char>, url: Seq<char>, max_length: nat, format: FetchFormat) -> (Option<Seq<char>>, Seq<char>) {
    if trim(html).len() == 0 {
        (None, seq![])
    } else {
        match format {
            FetchFormat::Html => (None, truncate_to_char_limit_spec(html, max_length)),
            FetchFormat::Text => (None, truncate_to_char_limit_spec(strip_html_tags_spec(html), max_length)),
            FetchFormat::Markdown => match readable_article(html, url) {
                Some((title, text)) => (
                    if title.len() == 0 { None } else { Some(title) },
                    truncate_to_char_limit_spec(text, max_length),
                ),
                None => (
                    None,
                    truncate_to_char_limit_spec(
                        match htmd_markdown(html) {
                            Some(m) => m,
                            None => seq![],
                        },
                        max_length,
                    ),
                ),
            },
        }
    }
}

pub open spec fn opt_string_view(o: Option<String>) -> Option<Seq<char>> {
    match o {
        Some(s) => Some(s@),
        None => None,
    }
}

/// The result for a fetched HTML page body: refused above the size limit,
/// else decoded (invalid UTF-8 replaced) and shaped by `page_content_spec`.
pub fn page_result(body: &[u8], final_url: &str, max_length: usize, format: FetchFormat) -> (r: Result<FetchResult, String>)
    ensures
        body@.len() > MAX_RESPONSE_SIZE ==> (r matches Err(m) && m@ == too_large_msg()),
        body@.len() <= MAX_RESPONSE_SIZE ==> (r matches Ok(res) && res.url@ == final_url@ && (opt_string_view(res.title),
        res.content@) == page_content_spec(utf8_lossy(body@), final_url@, max_length as nat, format)),
{
    if body.len() > MAX_RESPONSE_SIZE {
        return Err("Response too large (exceeds 5MB limit)".to_owned());
    }
    let html = lossy_text(body);
    let hc = chars_of(html.as_str());
    if trim_vec(&hc).len() == 0 {
        return Ok(FetchResult { title: None, content: String::new(), url: final_url.to_owned() });
    }
    match format {
        FetchFormat::Html => {
            let content = truncate_to_char_limit(html.as_str(), max_length);
            Ok(FetchResult { title: None, content, url: final_url.to_owned() })
        },
        FetchFormat::Text => {
            let text = strip_html_tags(html.as_str());
            let content = truncate_to_char_limit(text.as_str(), max_length);
            Ok(FetchResult { title: None, content, url: final_url.to_owned() })
        },
        FetchFormat::Markdown => {
            match extract_article(html.as_str(), final_url) {
                Some((title, text)) => {
                    let t = if title.as_str().is_empty() { None } else { Some(title) };
                    let content = truncate_to_char_limit(text.as_str(), max_length);
                    Ok(FetchResult { title: t, content, url: final_url.to_owned() })
                },
                None => {
                    let md = fallback_convert(html.as_str());
                    let content = truncate_to_char_limit(md.as_str(), max_length);
                    Ok(FetchResult { title: None, content, url: final_url.to_owned() })
                },
            }
        },
    }
}

/// The web-fetch tool.
#[derive(Debug)]
pub struct WebFetchTool {
    pub follows_redirects: bool,
}

impl WebFetchTool {
    /// The tool with its default client settings.
    pub fn with_defaults() -> (r: Self)
        ensures
            r.follows_redirects,
    {
        WebFetchTool { follows_redirects: true }
    }

    /// The tool's registered name.
    pub fn name(&self) -> (r: &'static str)
        ensures
            r@ == "web_fetch"@,
    {
        "web_fetch"
    }
}

/// The text format returns the page's plain-text conversion, not its
/// markup: for a page that is not blank, the content is what
/// `strip_html_tags` makes of it, cut to the limit; so two pages whose
/// Markdown conversions agree give the same text content however their
/// HTML differs, and a page `htmd` cannot convert gives empty content.
pub proof fn lemma_text_format_is_plain_text(h1: Seq<char>, h2: Seq<char>, u1: Seq<char>, u2: Seq<char>, max_length: nat)
    ensures
        trim(h1).len() > 0 ==> page_content_spec(h1, u1, max_length, FetchFormat::Text) == (
            None::<Seq<char>>,
            truncate_to_char_limit_spec(strip_html_tags_spec(h1), max_length),
        ),
        trim(h1).len() > 0 && trim(h2).len() > 0 && htmd_markdown(h1) == htmd_markdown(h2) ==> page_content_spec(
            h1,
            u1,
            max_length,
            FetchFormat::Text,
        ) == page_content_spec(h2, u2, max_length, FetchFormat::Text),
        trim(h1).len() > 0 && htmd_markdown(h1) is None ==> page_content_spec(h1, u1, max_length, FetchFormat::Text).1
            == Seq::<char>::empty(),
{
    if htmd_markdown(h1) is None {
        let e = Seq::<char>::empty();
        assert(lines_of(e) =~= Seq::<Seq<char>>::empty());
        assert(collapse_blank_lines(lines_of(e), 0, e, 0) == e);
        assert(trim(e) =~= e) by {
            crate::text::lemma_ws_prefix_bound(e);
            crate::text::lemma_ws_suffix(e, 0);
        }
    }
}

} // verus!
