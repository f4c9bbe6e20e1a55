//! The web tools backed by the crawling service: their requests with
//! defaults filled in, and the replies rendered from the service's answers.
//!
//! Replies that may be long are marked to go through output truncation.
use vstd::prelude::*;

use crate::text::{append_chars, append_str, chars_of, decimal, decimal_vec, join, join_vec, string_of, trim, trim_vec, views};

verus! {

/// Arguments of the crawling tool.
#[derive(Debug)]
pub struct WebCrawlArgs {
    pub url: String,
    pub limit: Option<u32>,
    pub depth: Option<u32>,
    pub return_format: Option<String>,
    pub request: Option<String>,
    pub readability: Option<bool>,
}

/// Arguments of the link-collecting tool.
#[derive(Debug)]
pub struct WebGetLinksArgs {
    pub url: String,
    pub limit: Option<u32>,
    pub request: Option<String>,
}

/// A selector to wait for before a screenshot.
#[derive(Debug)]
pub struct WaitForSelector {
    pub selector: String,
    pub timeout: Option<u32>,
}

/// Arguments of the screenshot tool.
#[derive(Debug)]
pub struct WebScreenshotArgs {
    pub url: String,
    pub request: Option<String>,
    pub wait_for_selector: Option<WaitForSelector>,
}

/// Arguments of the web search tool.
#[derive(Debug)]
pub struct WebSearchArgs {
    pub search: String,
    pub search_limit: Option<u32>,
    pub fetch_page_content: Option<bool>,
    pub return_format: Option<String>,
}

/// One page to transform.
#[derive(Debug)]
pub struct TransformItem {
    pub html: String,
    pub url: Option<String>,
}

/// Arguments of the transform tool.
#[derive(Debug)]
pub struct WebTransformArgs {
    pub data: Vec<TransformItem>,
    pub return_format: Option<String>,
}

/// A page the service answered with.
#[derive(Debug)]
pub struct CrawlPage {
    pub url: String,
    pub content: String,
    pub error: Option<String>,
}

/// A search result the service answered with.
#[derive(Debug)]
pub struct SearchItem {
    pub title: String,
    pub url: String,
    pub description: String,
}

/// A tool's reply, and whether it goes through output truncation.
#[derive(Debug)]
pub struct SpiderReply {
    pub text: String,
    pub truncate: bool,
}

/// A crawl request with its defaults filled in.
#[derive(Debug)]
pub struct CrawlRequest {
    pub url: String,
    pub limit: u32,
    pub depth: u32,
    pub return_format: String,
    pub request: String,
    pub readability: bool,
}

/// A search request with its defaults filled in.
#[derive(Debug)]
pub struct SearchRequest {
    pub search: String,
    pub search_limit: u32,
    pub fetch_page_content: bool,
    pub return_format: String,
}

/// A link-collecting request with its defaults filled in.
#[derive(Debug)]
pub struct LinksRequest {
    pub url: String,
    pub limit: u32,
    pub request: String,
}

/// A text that is empty once trimmed.
pub open spec fn blank(s: Seq<char>) -> bool {
    trim(s).len() == 0
}

fn is_blank(s: &str) -> (r: bool)
    ensures
        r == blank(s@),
{
    let cs = chars_of(s);
    trim_vec(&cs).len() == 0
}

/// The text of an optional string, or a default.
pub open spec fn text_or(o: Option<String>, d: Seq<char>) -> Seq<char> {
    match o {
        Some(s) => s@,
        None => d,
    }
}

fn string_or(o: &Option<String>, d: &str) -> (r: String)
    ensures
        r@ == text_or(*o, d@),
{
    match o {
        Some(s) => s.clone(),
        None => d.to_owned(),
    }
}

/// The crawl request: a blank URL is refused; one page, no depth limit,
/// markdown, automatic rendering and readable content by default.
pub fn crawl_request(args: &WebCrawlArgs) -> (r: Result<CrawlRequest, String>)
    ensures
        blank(args.url@) ==> (r matches Err(e) && e@ == "url is required"@),
        !blank(args.url@) ==> (r matches Ok(q) && q.url@ == args.url@ && q.limit == match args.limit {
            Some(l) => l,
            None => 1,
        } && q.depth == match args.depth {
            Some(d) => d,
            None => 0,
        } && q.return_format@ == text_or(args.return_format, "markdown"@) && q.request@ == text_or(
            args.request,
            "smart"@,
        ) && q.readability == match args.readability {
            Some(b) => b,
            None => true,
        }),
{
    if is_blank(args.url.as_str()) {
        return Err("url is required".to_owned());
    }
    Ok(CrawlRequest {
        url: args.url.clone(),
        limit: match args.limit {
            Some(l) => l,
            None => 1,
        },
        depth: match args.depth {
            Some(d) => d,
            None => 0,
        },
        return_format: string_or(&args.return_format, "markdown"),
        request: string_or(&args.request, "smart"),
        readability: match args.readability {
            Some(b) => b,
            None => true,
        },
    })
}

/// The search request: a blank query is refused; five results, without
/// page contents, in markdown by default.
pub fn search_request(args: &WebSearchArgs) -> (r: Result<SearchRequest, String>)
    ensures
        blank(args.search@) ==> (r matches Err(e) && e@ == "search query is required"@),
        !blank(args.search@) ==> (r matches Ok(q) && q.search@ == args.search@ && q.search_limit == match args.search_limit {
            Some(l) => l,
            None => 5,
        } && q.fetch_page_content == match args.fetch_page_content {
            Some(b) => b,
            None => false,
        } && q.return_format@ == text_or(args.return_format, "markdown"@)),
{
    if is_blank(args.search.as_str()) {
        return Err("search query is required".to_owned());
    }
    Ok(SearchRequest {
        search: args.search.clone(),
        search_limit: match args.search_limit {
            Some(l) => l,
            None => 5,
        },
        fetch_page_content: match args.fetch_page_content {
            Some(b) => b,
            None => false,
        },
        return_format: string_or(&args.return_format, "markdown"),
    })
}

/// The link-collecting request: a blank URL is refused; one page over
/// plain HTTP by default.
pub fn links_request(args: &WebGetLinksArgs) -> (r: Result<LinksRequest, String>)
    ensures
        blank(args.url@) ==> (r matches Err(e) && e@ == "url is required"@),
        !blank(args.url@) ==> (r matches Ok(q) && q.url@ == args.url@ && q.limit == match args.limit {
            Some(l) => l,
            None => 1,
        } && q.request@ == text_or(args.request, "http"@)),
{
    if is_blank(args.url.as_str()) {
        return Err("url is required".to_owned());
    }
    Ok(LinksRequest {
        url: args.url.clone(),
        limit: match args.limit {
            Some(l) => l,
            None => 1,
        },
        request: string_or(&args.request, "http"),
    })
}

/// The rendering mode of a screenshot: a blank URL is refused; a browser
/// by default.
pub fn screenshot_request_mode(args: &WebScreenshotArgs) -> (r: Result<String, String>)
    ensures
        blank(args.url@) ==> (r matches Err(e) && e@ == "url is required"@),
        !blank(args.url@) ==> (r matches Ok(m) && m@ == text_or(args.request, "chrome"@)),
{
    if is_blank(args.url.as_str()) {
        return Err("url is required".to_owned());
    }
    Ok(string_or(&args.request, "chrome"))
}

/// The output format of a transformation: no pages is refused; markdown by
/// default.
pub fn transform_format(args: &WebTransformArgs) -> (r: Result<String, String>)
    ensures
        args.data@.len() == 0 ==> (r matches Err(e) && e@ == "data array must not be empty"@),
        args.data@.len() > 0 ==> (r matches Ok(f) && f@ == text_or(args.return_format, "markdown"@)),
{
    if args.data.len() == 0 {
        return Err("data array must not be empty".to_owned());
    }
    Ok(string_or(&args.return_format, "markdown"))
}

/// The section of one crawled page.
pub open spec fn page_block(p: CrawlPage) -> Seq<char> {
    match p.error {
        Some(e) => "## "@ + p.url@ + " [ERROR]\n\n"@ + e@ + "\n\n---\n\n"@,
        None => if blank(p.content@) {
            "## "@ + p.url@ + " [EMPTY]\n\n---\n\n"@
        } else {
            "## "@ + p.url@ + "\n\n"@ + p.content@ + "\n\n---\n\n"@
        },
    }
}

/// The reply to a crawl: each page's section, or a note that none came.
pub fn crawl_reply(pages: &[CrawlPage]) -> (r: SpiderReply)
    ensures
        pages@.len() == 0 ==> r.text@ == "No pages found."@ && !r.truncate,
        pages@.len() > 0 ==> r.text@ == join(pages@.map_values(|p: CrawlPage| page_block(p)), seq![]) && r.truncate,
{
    if pages.len() == 0 {
        return SpiderReply { text: "No pages found.".to_owned(), truncate: false };
    }
    let mut blocks: Vec<Vec<char>> = Vec::new();
    let mut i: usize = 0;
    while i < pages.len()
        invariant
            i <= pages.len(),
            views(blocks@) == pages@.take(i as int).map_values(|p: CrawlPage| page_block(p)),
        decreases pages.len() - i,
    {
        let p = &pages[i];
        let mut b = chars_of("## ");
        append_str(&mut b, p.url.as_str());
        match &p.error {
            Some(e) => {
                append_str(&mut b, " [ERROR]\n\n");
                append_str(&mut b, e.as_str());
                append_str(&mut b, "\n\n---\n\n");
            },
            None => {
                if is_blank(p.content.as_str()) {
                    append_str(&mut b, " [EMPTY]\n\n---\n\n");
                } else {
                    append_str(&mut b, "\n\n");
                    append_str(&mut b, p.content.as_str());
                    append_str(&mut b, "\n\n---\n\n");
                }
            },
        }
        let ghost before = views(blocks@);
        blocks.push(b);
        proof {
            assert(views(blocks@) =~= before.push(page_block(pages@[i as int])));
            assert(pages@.take(i + 1).map_values(|p: CrawlPage| page_block(p)) =~= pages@.take(i as int).map_values(
                |p: CrawlPage| page_block(p),
            ).push(page_block(pages@[i as int])));
        }
        i = i + 1;
    }
    assert(pages@.take(i as int) =~= pages@);
    let empty: Vec<char> = Vec::new();
    SpiderReply { text: string_of(&join_vec(&blocks, &empty)), truncate: true }
}

/// The lines of the `i`-th search result (counting from zero).
pub open spec fn search_block(i: int, it: SearchItem) -> Seq<char> {
    decimal((i + 1) as nat) + ". **"@ + (if it.title@.len() == 0 {
        it.url@
    } else {
        it.title@
    }) + "**\n"@ + "   "@ + it.url@ + "\n"@ + (if it.description@.len() == 0 {
        seq![]
    } else {
        "   "@ + it.description@ + "\n"@
    }) + "\n"@
}

/// The reply to a search: numbered results with their URLs and
/// descriptions, or a note that none came.
pub fn search_reply(items: &[SearchItem]) -> (r: SpiderReply)
    requires
        items@.len() < u64::MAX,
    ensures
        items@.len() == 0 ==> r.text@ == "No search results found."@ && !r.truncate,
        items@.len() > 0 ==> r.text@ == join(items@.map(|i: int, it: SearchItem| search_block(i, it)), seq![])
            && r.truncate,
{
    if items.len() == 0 {
        return SpiderReply { text: "No search results found.".to_owned(), truncate: false };
    }
    let mut blocks: Vec<Vec<char>> = Vec::new();
    let mut i: usize = 0;
    while i < items.len()
        invariant
            i <= items.len(),
            items@.len() < u64::MAX,
            views(blocks@) == items@.take(i as int).map(|i: int, it: SearchItem| search_block(i, it)),
        decreases items.len() - i,
    {
        let it = &items[i];
        let mut b = decimal_vec((i as u64) + 1);
        append_str(&mut b, ". **");
        if it.title.as_str().is_empty() {
            append_str(&mut b, it.url.as_str());
        } else {
            append_str(&mut b, it.title.as_str());
        }
        append_str(&mut b, "**\n");
        append_str(&mut b, "   ");
        append_str(&mut b, it.url.as_str());
        append_str(&mut b, "\n");
        if !it.description.as_str().is_empty() {
            append_str(&mut b, "   ");
            append_str(&mut b, it.description.as_str());
            append_str(&mut b, "\n");
        }
        append_str(&mut b, "\n");
        assert(b@ =~= search_block(i as int, items@[i as int]));
        let ghost before = views(blocks@);
        blocks.push(b);
        proof {
            assert(views(blocks@) =~= before.push(search_block(i as int, items@[i as int])));
            assert(items@.take(i + 1).map(|i: int, it: SearchItem| search_block(i, it)) =~= items@.take(i as int).map(
                |i: int, it: SearchItem| search_block(i, it),
            ).push(search_block(i as int, items@[i as int])));
        }
        i = i + 1;
    }
    assert(items@.take(i as int) =~= items@);
    let empty: Vec<char> = Vec::new();
    SpiderReply { text: string_of(&join_vec(&blocks, &empty)), truncate: true }
}

/// The screenshot of the first page answered, as a PNG data URI, with the
/// page's URL; an empty answer or empty content is an error.
pub fn screenshot_reply(pages: &[CrawlPage]) -> (r: Result<(String, String), String>)
    ensures
        pages@.len() == 0 ==> (r matches Err(e) && e@ == "No screenshot returned."@),
        (pages@.len() > 0 && pages@[0].content@.len() == 0) ==> (r matches Err(e) && e@
            == "Screenshot returned empty content."@),
        (pages@.len() > 0 && pages@[0].content@.len() > 0) ==> (r matches Ok((u, c)) && u@ == pages@[0].url@ && c@
            == "data:image/png;base64,"@ + pages@[0].content@),
{
    if pages.len() == 0 {
        return Err("No screenshot returned.".to_owned());
    }
    let p = &pages[0];
    if p.content.as_str().is_empty() {
        return Err("Screenshot returned empty content.".to_owned());
    }
    let mut c = chars_of("data:image/png;base64,");
    append_str(&mut c, p.content.as_str());
    Ok((p.url.clone(), string_of(&c)))
}

/// The reply to a transformation: a note when nothing came, the single
/// result as it is, or the results separated by rules (then truncated).
pub fn transform_reply(contents: &Vec<String>) -> (r: SpiderReply)
    ensures
        contents@.len() == 0 ==> r.text@ == "No content returned from transformation."@ && !r.truncate,
        contents@.len() == 1 ==> r.text@ == contents@[0]@ && !r.truncate,
        contents@.len() > 1 ==> r.text@ == join(contents@.map_values(|s: String| s@), "\n\n---\n\n"@) && r.truncate,
{
    if contents.len() == 0 {
        return SpiderReply { text: "No content returned from transformation.".to_owned(), truncate: false };
    }
    if contents.len() == 1 {
        return SpiderReply { text: contents[0].clone(), truncate: false };
    }
    let mut parts: Vec<Vec<char>> = Vec::new();
    let mut i: usize = 0;
    while i < contents.len()
        invariant
            i <= contents.len(),
            views(parts@) == contents@.take(i as int).map_values(|s: String| s@),
        decreases contents.len() - i,
    {
        let ghost before = views(parts@);
        parts.push(chars_of(contents[i].as_str()));
        assert(views(parts@) =~= before.push(contents@[i as int]@));
        assert(contents@.take(i + 1).map_values(|s: String| s@) =~= contents@.take(i as int).map_values(|s: String| s@).push(
            contents@[i as int]@,
        ));
        i = i + 1;
    }
    assert(contents@.take(i as int) =~= contents@);
    let sep = chars_of("\n\n---\n\n");
    SpiderReply { text: string_of(&join_vec(&parts, &sep)), truncate: true }
}

/// The error for a reply that is not a success: the `error` field of a JSON
/// body when there is one, else the whole body.
pub fn service_error(status_text: &str, body: &str, json_error: Option<&str>) -> (r: String)
    ensures
        r@ == "Spider API error ("@ + status_text@ + "): "@ + match json_error {
            Some(e) => e@,
            None => body@,
        },
{
    let mut m = chars_of("Spider API error (");
    append_str(&mut m, status_text);
    append_str(&mut m, "): ");
    match json_error {
        Some(e) => append_str(&mut m, e),
        None => append_str(&mut m, body),
    }
    string_of(&m)
}

/// The error for a request that could not be sent.
pub fn service_send_error(timed_out: bool, error_text: &str) -> (r: String)
    ensures
        timed_out ==> r@ == "Spider API request timed out (60s). The site may be slow or unresponsive."@,
        !timed_out ==> r@ == "Spider API request failed: "@ + error_text@,
{
    if timed_out {
        return "Spider API request timed out (60s). The site may be slow or unresponsive.".to_owned();
    }
    let mut m = chars_of("Spider API request failed: ");
    append_str(&mut m, error_text);
    string_of(&m)
}

} // verus!
