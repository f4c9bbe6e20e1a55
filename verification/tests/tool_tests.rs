use tools::artifacts::{derive_idempotency_key, encode_metadata, file_name_from_path, resolve_location, TusError};
use tools::bash::{default_description, truncate_output, try_truncate_output, BashTool};
use tools::integration::{integration_tool_name, parse_integration_tool_name};
use tools::ls::{entry_label, is_ignored, listing_result, render_tree, LsTool};
use tools::misc_tools::{read_incomplete_count, write_incomplete_count, LspArgs, LspOperation, TodoItemArg, TodoList};
use tools::read::{
    check_absolute, check_size, classify_sample, is_binary_extension, is_image_extension, is_pdf, is_svg,
    reject_binary_extension, render_directory, render_text_file, sample_looks_binary, BinaryDetection, ReadTool,
};
use tools::search_tools::{
    ast_grep_command_args, ast_grep_exit_check, glob_result, grep_context_lines, grep_items, rip_grep_command_args,
    rip_grep_outcome, AstGrepArgs, AstGrepTool, GlobCandidate, GlobTool, GrepArgs, GrepItem, OutputMode, RipGrepArgs,
    RipGrepTool,
};
use tools::web_fetch::{
    accept_header, check_content_length, check_html_content_type, is_image_content_type, page_result, status_decision,
    truncate_to_char_limit, FetchFormat, StatusDecision,
};

#[test]
fn test_parse_integration_tool_name() {
    assert_eq!(parse_integration_tool_name("github__create_pull_request"), Some(("github", "create_pull_request")));
    assert_eq!(parse_integration_tool_name("bash"), None);
    assert_eq!(parse_integration_tool_name("__bad"), None);
    assert_eq!(parse_integration_tool_name("bad__"), None);
}

#[test]
fn test_integration_tool_name_helper() {
    assert_eq!(integration_tool_name("github", "create_pull_request"), "github__create_pull_request");
}

#[test]
fn resolves_absolute_location() {
    assert_eq!(
        resolve_location("https://cp.example.com/uploads", "https://cdn.example.com/u/abc"),
        "https://cdn.example.com/u/abc"
    );
}

#[test]
fn resolves_root_relative_location() {
    assert_eq!(resolve_location("https://cp.example.com/uploads", "/files/abc"), "https://cp.example.com/files/abc");
}

#[test]
fn resolves_path_relative_location() {
    assert_eq!(resolve_location("https://cp.example.com/uploads", "abc"), "https://cp.example.com/abc");
}

#[test]
fn test_ast_grep_tool_name() {
    let tool = AstGrepTool::new();
    assert_eq!(tool.name(), "AstGrep");
}

#[test]
fn test_ast_grep_description_not_empty() {
    let tool = AstGrepTool::new();
    assert!(!tool.description().is_empty());
}

#[test]
fn test_rip_grep_tool_name() {
    let tool = RipGrepTool::new();
    assert_eq!(tool.name(), "RipGrep");
}

#[test]
fn test_rip_grep_description_not_empty() {
    let tool = RipGrepTool::new();
    assert!(!tool.description().is_empty());
}

#[test]
fn test_truncate_output_short() {
    let short = b"hello";
    assert_eq!(truncate_output(short, None), "hello");
}

fn check_glob_description() {
    let tool = GlobTool::new();
    let desc = tool.description();
    assert!(!desc.is_empty());
    assert!(desc.contains("glob pattern"), "should mention glob patterns");
    assert!(desc.contains("modification time"), "should mention sort order");
    assert!(desc.contains("Agent"), "should mention cross-tool guidance");
}

#[test]
fn glob_test_glob_description_is_rich() {
    check_glob_description();
}

#[test]
fn tests_test_glob_description_is_rich() {
    check_glob_description();
}

#[test]
fn test_ls_description_is_rich() {
    let tool = LsTool::new();
    let desc = tool.description();
    assert!(!desc.is_empty());
    assert!(desc.contains("absolute"), "should mention absolute path requirement");
    assert!(desc.contains("Glob"), "should mention cross-tool guidance");
    assert!(desc.contains("RipGrep"), "should mention cross-tool guidance");
}

#[test]
fn read_test_read_description_is_rich() {
    let tool = ReadTool::new();
    let desc = tool.description();
    assert!(!desc.is_empty());
    assert!(desc.contains("absolute path"), "should mention absolute path requirement");
    assert!(desc.contains("2000"), "should mention default line limit");
    assert!(desc.contains("image"), "should mention image support");
    assert!(desc.contains("grep"), "should mention cross-tool guidance");
}

#[test]
fn basic_test_read_description_is_rich() {
    let tool = ReadTool::new();
    let desc = tool.description();
    assert!(!desc.is_empty());
    assert!(desc.contains("absolute path"), "should mention absolute path requirement");
    assert!(desc.contains("2000"), "should mention default line limit");
    assert!(desc.contains("image"), "should mention image support");
    assert!(desc.contains("RipGrep"), "should mention cross-tool guidance");
    assert!(desc.contains("self_agent"), "should mention self_agent steer for large files");
}

#[test]
fn test_truncation_at_max_length() {
    let long_text = "a".repeat(100);
    let truncated = truncate_to_char_limit(&long_text, 50);
    assert!(truncated.starts_with(&"a".repeat(50)));
    assert!(truncated.ends_with("[Content truncated...]"));
    assert!(truncated.len() < long_text.len() + 30);
}

#[test]
fn test_truncation_not_applied_when_under_limit() {
    let text = "Hello, world!";
    let result = truncate_to_char_limit(text, 1000);
    assert_eq!(result, text);
}

#[test]
fn test_truncation_exact_boundary() {
    let text = "abcde";
    let result = truncate_to_char_limit(text, 5);
    assert_eq!(result, "abcde");
}

#[test]
fn test_truncation_with_multibyte_chars() {
    let text = "\u{1F600}\u{1F601}\u{1F602}\u{1F603}\u{1F604}";
    let result = truncate_to_char_limit(text, 3);
    assert_eq!(result.chars().take(3).count(), 3);
    assert!(result.ends_with("[Content truncated...]"));
}

// ---------------------------------------------------------------------------
// Further cases
// ---------------------------------------------------------------------------

#[test]
fn location_without_path_in_url() {
    assert_eq!(resolve_location("https://host", "abc"), "https://host/abc");
    assert_eq!(resolve_location("https://host", "/abc"), "https://host/abc");
    assert_eq!(resolve_location("no-scheme", "abc"), "abc");
}

#[test]
fn tus_errors() {
    assert!(TusError::Transient("x".to_string()).is_transient());
    assert!(!TusError::Permanent("x".to_string()).is_transient());
    assert_eq!(
        TusError::Mismatch { server: 10, client: 4 }.message(),
        "offset mismatch (server expected 10, client sent 4)"
    );
}

#[test]
fn upload_names_and_keys() {
    assert_eq!(file_name_from_path("/a/b/report.csv"), "report.csv");
    assert_eq!(file_name_from_path("/"), "artifact");
    let k = derive_idempotency_key("agent", "/p", "abc");
    assert_eq!(k.len(), 64);
    assert!(k.chars().all(|c| c.is_ascii_hexdigit() && !c.is_ascii_uppercase()));
    assert_ne!(k, derive_idempotency_key("agent", "/q", "abc"));
}

#[test]
fn metadata_sorted_and_filtered() {
    let m = vec![
        ("workspace".to_string(), "ws_42".to_string()),
        ("has space".to_string(), "v".to_string()),
        ("filename".to_string(), "hello.csv".to_string()),
    ];
    assert_eq!(encode_metadata(&m), "filename aGVsbG8uY3N2,workspace d3NfNDI=");
}

#[test]
fn long_output_is_cut() {
    let long = vec![b'x'; 50100];
    let out = truncate_output(&long, Some("/tmp/out.txt"));
    assert!(out.starts_with(&"x".repeat(1000)));
    assert!(out.contains("[Output truncated. Full output (50100 bytes) saved to: /tmp/out.txt]"));
    let fallback = try_truncate_output(&long, None).unwrap();
    assert!(fallback.ends_with("\n[output truncated]"));
    assert_eq!(fallback.len(), 50000 + "\n[output truncated]".len());
    assert_eq!(BashTool::new().name(), "bash");
}

#[test]
fn command_descriptions() {
    assert_eq!(default_description("ls -la\necho hi"), Some("ls -la".to_string()));
    let long = "a".repeat(90);
    assert_eq!(default_description(&long), Some(format!("{}...", "a".repeat(77))));
}

#[test]
fn listing_tree() {
    let files = vec!["src/".to_string(), "src/main.rs".to_string(), "README.md".to_string()];
    assert_eq!(render_tree(&files), "src/\n  main.rs\nREADME.md\n");
    let r = listing_result(&files);
    assert_eq!((r.total_entries, r.truncated), (3, false));
    assert!(is_ignored(&["a".to_string(), "node_modules".to_string()]));
    assert!(!is_ignored(&["src".to_string()]));
    assert_eq!(entry_label("d", true), "d/");
}

#[test]
fn todo_counts() {
    let todos = vec![
        TodoItemArg { content: "a".to_string(), status: "completed".to_string(), priority: "high".to_string() },
        TodoItemArg { content: "b".to_string(), status: "cancelled".to_string(), priority: "low".to_string() },
        TodoItemArg { content: "c".to_string(), status: "pending".to_string(), priority: "low".to_string() },
    ];
    assert_eq!(write_incomplete_count(&todos), 1);
    assert_eq!(read_incomplete_count(&todos), 2);
    let mut list = TodoList::new();
    let r = list.write(todos);
    assert!(r.ok);
    assert_eq!(list.read(), (3, 2));
}

#[test]
fn lsp_positions() {
    let mut a = LspArgs { operation: LspOperation::Hover, file_path: "/f".to_string(), line: Some(3), character: Some(1), query: None };
    assert_eq!(a.position(), Ok((2, 0)));
    a.line = Some(0);
    assert_eq!(a.position(), Err("'line' must be >= 1 (1-based)".to_string()));
    a.line = None;
    assert_eq!(a.position(), Err("'line' is required for this operation".to_string()));
}

#[test]
fn read_classification() {
    assert!(is_image_extension("/a/b.PNG"));
    assert!(is_binary_extension("/a/b.exe"));
    assert!(!is_binary_extension("/a/b.rs"));
    assert!(is_svg("/x.SVG"));
    assert!(is_pdf("/x.pdf"));
    assert!(sample_looks_binary(&[0, 65]));
    let mut bytes = vec![1u8; 35];
    bytes.extend(vec![b'A'; 65]);
    assert!(sample_looks_binary(&bytes));
    let mut bytes = vec![1u8; 30];
    bytes.extend(vec![b'A'; 70]);
    assert!(!sample_looks_binary(&bytes));
    assert!(matches!(classify_sample(b"hello", "/a.txt", 5), BinaryDetection::Text));
    match classify_sample(&[0, 1, 2], "/data.bin", 3) {
        BinaryDetection::Reject(m) => assert_eq!(m, "Binary file detected (3 bytes). Use the bash tool to inspect binary files."),
        _ => panic!("expected a refusal"),
    }
    assert!(reject_binary_extension("/p.exe", 20).is_some());
    assert!(check_absolute("rel/path").is_err());
    assert!(check_size("/f", true, 10 * 1024 * 1024 + 1).unwrap_err().contains("too large"));
}

#[test]
fn read_text_window() {
    let lines: Vec<String> = (1..=5).map(|i| format!("l{i}")).collect();
    let r = render_text_file("/f", &lines, 2, 2, true).unwrap().unwrap();
    assert_eq!(r.content, "2: l2\n3: l3\n");
    assert_eq!((r.total_lines, r.lines_read, r.truncated), (5, 2, true));
    let err = render_text_file("/f", &lines, 9, 2, true).unwrap().unwrap_err();
    assert_eq!(err, "Offset 9 is out of range for this file (5 lines)");
    let empty: Vec<String> = vec![];
    assert_eq!(render_text_file("/f", &empty, 1, 2000, false).unwrap().unwrap().lines_read, 0);
}

#[test]
fn read_large_file_gate() {
    let lines: Vec<String> = (0..2001).map(|i| i.to_string()).collect();
    let err = render_text_file("/big", &lines, 1, 2000, false).unwrap().unwrap_err();
    assert!(err.starts_with("File /big has 2001 lines (default limit: 2000)."));
    assert!(render_text_file("/big", &lines, 1, 10, true).unwrap().is_ok());
}

#[test]
fn read_directory_listing() {
    let entries = vec![("b.txt".to_string(), false), ("A".to_string(), true), ("c".to_string(), false)];
    let r = render_directory("/d", &entries, 1, 2000, false).unwrap().unwrap();
    assert_eq!(r.content, "A/\nb.txt\nc");
    let r = render_directory("/d", &entries, 2, 1, true).unwrap().unwrap();
    assert_eq!((r.content.as_str(), r.lines_read, r.truncated), ("b.txt", 1, true));
}

#[test]
fn search_command_lines() {
    let a = AstGrepArgs { pattern: "f($A)".to_string(), path: None, language: Some("rust".to_string()) };
    assert_eq!(ast_grep_command_args(&a), vec!["run", "--pattern", "f($A)", "--json", "--lang", "rust", "."]);
    let r = RipGrepArgs {
        pattern: "foo".to_string(),
        path: Some("src".to_string()),
        file_type: None,
        glob: Some("*.rs".to_string()),
        fixed_strings: Some(true),
        max_count: Some(3),
        context: None,
        multiline: None,
        json: None,
        word_regexp: None,
        invert_match: Some(true),
    };
    assert_eq!(
        rip_grep_command_args(&r),
        vec!["foo", "--glob", "*.rs", "--fixed-strings", "--max-count", "3", "--invert-match", "--line-number", "src"]
    );
    assert!(ast_grep_exit_check(false, Some(1), "").is_ok());
    assert_eq!(ast_grep_exit_check(false, None, "boom"), Err("ast-grep failed (exit -1): boom".to_string()));
    assert_eq!(rip_grep_outcome(Some(2), "", "bad").err(), Some("ripgrep error: bad".to_string()));
    assert_eq!(rip_grep_outcome(Some(1), "", "noise").unwrap().output, "");
}

#[test]
fn glob_newest_first() {
    let c = |p: &str, t: i128| GlobCandidate { path: p.to_string(), sort_time: t, since_epoch: Some((t as u64, 0)) };
    let r = glob_result(vec![c("old", 1), c("new", 100), c("mid", 50), c("mid2", 50)], false);
    let paths: Vec<&str> = r.files.iter().map(|f| f.path.as_str()).collect();
    assert_eq!(paths, vec!["new", "mid", "mid2", "old"]);
    assert_eq!(r.files[0].modified.as_deref(), Some("1970-01-01T00:01:40+00:00"));
}

#[test]
fn grep_shaping() {
    let args = GrepArgs {
        pattern: "x".to_string(),
        path: None,
        glob: None,
        file_type: None,
        case_insensitive: None,
        context_before: Some(2),
        context_after: None,
        context: None,
        output_mode: None,
        max_results: None,
    };
    assert_eq!(grep_context_lines(&args), (2, 0));
    let (items, total, truncated) = grep_items(OutputMode::FilesWithMatches, vec![], vec!["a".to_string(), "b".to_string()], vec![], 1);
    assert_eq!((items.len(), total, truncated), (1, 2, true));
    assert!(matches!(&items[0], GrepItem::File(f) if f == "a"));
}

#[test]
fn web_fetch_decisions() {
    assert!(accept_header(FetchFormat::Html).starts_with("text/html;q=1.0"));
    assert!(matches!(status_decision(403, "403 Forbidden", Some("challenge"), "u"), StatusDecision::RetryWithSimpleAgent));
    match status_decision(500, "500 Internal Server Error", None, "http://x") {
        StatusDecision::Fail(m) => assert_eq!(m, "HTTP error 500 Internal Server Error for URL: http://x"),
        _ => panic!("expected failure"),
    }
    assert!(matches!(status_decision(200, "200 OK", None, "u"), StatusDecision::Proceed));
    assert!(check_content_length(Some(6 * 1024 * 1024)).is_err());
    assert!(is_image_content_type("image/png"));
    assert!(!is_image_content_type("image/svg+xml"));
    assert!(check_html_content_type("text/html; charset=utf-8").is_ok());
    assert!(check_html_content_type("application/xhtml+xml").is_ok());
    assert_eq!(
        check_html_content_type("application/pdf"),
        Err("Non-HTML content type: application/pdf. Only HTML pages are supported.".to_string())
    );
    assert_eq!(check_html_content_type(""), Ok(()));
}

#[test]
fn web_fetch_page_formats() {
    let r = page_result(b"<html><body><p>Hi</p></body></html>", "https://x", 1000, FetchFormat::Html).unwrap();
    assert_eq!(r.content, "<html><body><p>Hi</p></body></html>");
    let r = page_result(b"   ", "https://x", 1000, FetchFormat::Markdown).unwrap();
    assert_eq!(r.content, "");
    assert!(r.title.is_none());
    let r = page_result(b"<p>Hello</p>", "https://x", 1000, FetchFormat::Text).unwrap();
    assert!(r.content.contains("Hello"));
}
