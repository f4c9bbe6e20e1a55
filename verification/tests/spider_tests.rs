use tools::read::{plan_read, ReadPlan};
use tools::spider::{
    crawl_reply, crawl_request, links_request, screenshot_reply, screenshot_request_mode, search_reply,
    search_request, service_error, service_send_error, transform_format, transform_reply, CrawlPage, SearchItem,
    TransformItem, WebCrawlArgs, WebGetLinksArgs, WebScreenshotArgs, WebSearchArgs, WebTransformArgs,
};

fn s(x: &str) -> String {
    x.to_string()
}

fn page(url: &str, content: &str, error: Option<&str>) -> CrawlPage {
    CrawlPage { url: s(url), content: s(content), error: error.map(s) }
}

#[test]
fn crawl_defaults_and_refusal() {
    let args = WebCrawlArgs { url: s("https://a.b"), limit: None, depth: None, return_format: None, request: None, readability: None };
    let q = crawl_request(&args).unwrap();
    assert_eq!((q.limit, q.depth, q.return_format.as_str(), q.request.as_str(), q.readability), (1, 0, "markdown", "smart", true));
    let blank = WebCrawlArgs { url: s("   "), limit: Some(3), depth: None, return_format: None, request: None, readability: None };
    assert_eq!(crawl_request(&blank).unwrap_err(), "url is required");
}

#[test]
fn other_requests() {
    let q = search_request(&WebSearchArgs { search: s("rust"), search_limit: None, fetch_page_content: None, return_format: Some(s("text")) }).unwrap();
    assert_eq!((q.search_limit, q.fetch_page_content, q.return_format.as_str()), (5, false, "text"));
    assert_eq!(
        search_request(&WebSearchArgs { search: s(" \t"), search_limit: None, fetch_page_content: None, return_format: None }).unwrap_err(),
        "search query is required"
    );
    let l = links_request(&WebGetLinksArgs { url: s("https://x"), limit: Some(4), request: None }).unwrap();
    assert_eq!((l.limit, l.request.as_str()), (4, "http"));
    assert_eq!(screenshot_request_mode(&WebScreenshotArgs { url: s("https://x"), request: None, wait_for_selector: None }).unwrap(), "chrome");
    assert_eq!(transform_format(&WebTransformArgs { data: vec![], return_format: None }).unwrap_err(), "data array must not be empty");
    let t = WebTransformArgs { data: vec![TransformItem { html: s("<p>x</p>"), url: None }], return_format: None };
    assert_eq!(transform_format(&t).unwrap(), "markdown");
}

#[test]
fn crawl_pages_rendered() {
    assert_eq!(crawl_reply(&[]).text, "No pages found.");
    let r = crawl_reply(&[page("https://a", "hello", None), page("https://b", "  ", None), page("https://c", "", Some("boom"))]);
    assert!(r.truncate);
    assert_eq!(
        r.text,
        "## https://a\n\nhello\n\n---\n\n## https://b [EMPTY]\n\n---\n\n## https://c [ERROR]\n\nboom\n\n---\n\n"
    );
}

#[test]
fn search_results_rendered() {
    assert_eq!(search_reply(&[]).text, "No search results found.");
    let items = vec![
        SearchItem { title: s("Rust"), url: s("https://rust-lang.org"), description: s("A language") },
        SearchItem { title: s(""), url: s("https://x.y"), description: s("") },
    ];
    assert_eq!(
        search_reply(&items).text,
        "1. **Rust**\n   https://rust-lang.org\n   A language\n\n2. **https://x.y**\n   https://x.y\n\n"
    );
}

#[test]
fn screenshots_and_transforms() {
    assert_eq!(screenshot_reply(&[]).unwrap_err(), "No screenshot returned.");
    assert_eq!(screenshot_reply(&[page("u", "", None)]).unwrap_err(), "Screenshot returned empty content.");
    let (u, c) = screenshot_reply(&[page("u", "AAAA", None)]).unwrap();
    assert_eq!((u.as_str(), c.as_str()), ("u", "data:image/png;base64,AAAA"));
    assert_eq!(transform_reply(&vec![]).text, "No content returned from transformation.");
    let one = transform_reply(&vec![s("only")]);
    assert_eq!((one.text.as_str(), one.truncate), ("only", false));
    let two = transform_reply(&vec![s("a"), s("b")]);
    assert_eq!((two.text.as_str(), two.truncate), ("a\n\n---\n\nb", true));
}

#[test]
fn service_errors() {
    assert_eq!(service_error("404 Not Found", "{\"error\":\"gone\"}", Some("gone")), "Spider API error (404 Not Found): gone");
    assert_eq!(service_error("500 Internal Server Error", "raw", None), "Spider API error (500 Internal Server Error): raw");
    assert_eq!(service_send_error(true, "x"), "Spider API request timed out (60s). The site may be slow or unresponsive.");
    assert_eq!(service_send_error(false, "refused"), "Spider API request failed: refused");
}

#[test]
fn read_plans() {
    assert_eq!(plan_read("/d", false, true, 0).unwrap(), ReadPlan::Directory);
    assert_eq!(plan_read("/a.pdf", true, false, 10).unwrap(), ReadPlan::Pdf);
    assert_eq!(plan_read("/a.png", true, false, 10).unwrap(), ReadPlan::Sample);
    assert_eq!(plan_read("/a.rs", true, false, 10).unwrap(), ReadPlan::Sample);
    assert!(plan_read("/a.zip", true, false, 10).unwrap_err().starts_with("Binary file detected (10 bytes)"));
    assert!(plan_read("/big.txt", true, false, u64::MAX).unwrap_err().starts_with("File /big.txt is too large"));
}
