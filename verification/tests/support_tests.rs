use tools::artifacts::{chunk_checksum, file_digest};
use tools::bash::{combine_output, needs_spill, timed_out_result, MAX_OUTPUT_BYTES};
use tools::registry::JsonValue;
use tools::rtk::rewrite_choice;
use tools::search_tools::{ast_grep_matches, compile_glob, glob_step, GlobStep, GLOB_MAX_RESULTS};

#[test]
fn combine_output_keeps_stdout_alone() {
    assert_eq!(combine_output(b"out\n", b""), b"out\n".to_vec());
}

#[test]
fn combine_output_adds_newline_before_stderr() {
    assert_eq!(combine_output(b"out", b"err"), b"out\nerr".to_vec());
    assert_eq!(combine_output(b"out\n", b"err"), b"out\nerr".to_vec());
    assert_eq!(combine_output(b"", b"err"), b"err".to_vec());
}

#[test]
fn timed_out_result_reports_timeout() {
    let r = timed_out_result();
    assert_eq!(r.output, "[timed out]");
    assert_eq!(r.exit_code, None);
    assert!(r.timed_out);
}

#[test]
fn needs_spill_only_past_the_limit() {
    assert!(!needs_spill(&vec![b'a'; MAX_OUTPUT_BYTES]));
    assert!(needs_spill(&vec![b'a'; MAX_OUTPUT_BYTES + 1]));
    assert!(!needs_spill(b"short"));
}

#[test]
fn file_digest_is_hex_sha256() {
    assert_eq!(file_digest(b"abc"), "ba7816bf8f01cfea414140de5dae2223b00361a396177a9cb410ff61f20015ad");
}

#[test]
fn chunk_checksum_is_base64_sha256() {
    assert_eq!(chunk_checksum(b"abc"), "sha256 ungWv48Bz+pBQUDeXa4iI7ADYaOWF3qctBD/YfIAFa0=");
}

fn obj(members: Vec<(&str, JsonValue)>) -> JsonValue {
    JsonValue::Object(members.into_iter().map(|(k, v)| (k.to_string(), v)).collect())
}

#[test]
fn ast_grep_matches_reads_file_range_and_text() {
    let item = obj(vec![
        ("file", JsonValue::Str("src/a.rs".to_string())),
        ("text", JsonValue::Str("fn main() {}".to_string())),
        ("range", obj(vec![("start", obj(vec![("line", JsonValue::Number("3".to_string())), ("column", JsonValue::Number("4".to_string()))]))])),
    ]);
    let no_range = obj(vec![("file", JsonValue::Str("b.rs".to_string()))]);
    let ms = ast_grep_matches(&JsonValue::Array(vec![item, no_range]));
    assert_eq!(ms.len(), 1);
    assert_eq!(ms[0].file, "src/a.rs");
    assert_eq!(ms[0].line, 3);
    assert_eq!(ms[0].column, 4);
    assert_eq!(ms[0].text, "fn main() {}");
    assert!(ast_grep_matches(&JsonValue::Null).is_empty());
}

#[test]
fn global_filters_path_is_platform_appropriate() {
    let p = tools::rtk::global_filters_path().expect("should resolve a path");
    assert!(
        p.ends_with("rtk/filters.toml") || p.ends_with("rtk\\filters.toml"),
        "path should end with rtk/filters.toml, got: {p}"
    );
    assert!(
        p.contains(".config") || p.contains("/config") || p.contains("Library/Application Support"),
        "path should be under the user configuration directory, got: {p}"
    );
}

#[test]
fn filters_path_joins_rtk_and_file_name() {
    assert_eq!(tools::rtk::filters_path_in("/home/u/.config"), "/home/u/.config/rtk/filters.toml");
}

#[test]
fn managed_filters_start_with_header() {
    let c = tools::rtk::managed_filters("schema_version = 1\n");
    assert!(c.starts_with(tools::rtk::MANAGED_HEADER));
    assert!(c.ends_with("schema_version = 1\n"));
    assert!(!tools::rtk::filters_need_write(Some(&c), &c));
    assert!(tools::rtk::filters_need_write(Some("old"), &c));
    assert!(tools::rtk::filters_need_write(None, &c));
}

#[test]
fn rewrite_choice_follows_exit_codes() {
    assert_eq!(rewrite_choice("git status", Some(0), b"rtk git status\n"), "rtk git status");
    assert_eq!(rewrite_choice("git status", Some(3), b"rtk git status\r\n"), "rtk git status");
    assert_eq!(rewrite_choice("git status", Some(1), b"rtk git status\n"), "git status");
    assert_eq!(rewrite_choice("git status", Some(2), b"rtk git status"), "git status");
    assert_eq!(rewrite_choice("git status", None, b"rtk git status"), "git status");
    assert_eq!(rewrite_choice("git status", Some(0), b"\n"), "git status");
    assert_eq!(rewrite_choice("git status", Some(0), &[0xff, 0xfe]), "git status");
}

#[test]
fn suggestion_of_a_registered_name_in_other_case() {
    let mut r = tools::registry::ToolRegistry::new();
    r.register("Read".to_string(), "read files".to_string());
    r.register("bash".to_string(), "run commands".to_string());
    assert_eq!(r.suggest_tool("read"), Some("Read".to_string()));
    assert_eq!(r.suggest_tool("BASH"), Some("bash".to_string()));
}

#[test]
fn glob_steps_follow_the_pattern_and_the_cap() {
    let g = compile_glob("**/*.rs").unwrap();
    assert_eq!(glob_step(&g, "src/main.rs", 0), GlobStep::Take);
    assert_eq!(glob_step(&g, "main.rs", 5), GlobStep::Take);
    assert_eq!(glob_step(&g, "README.md", 0), GlobStep::Skip);
    assert_eq!(glob_step(&g, "src/lib.rs", GLOB_MAX_RESULTS), GlobStep::Stop);
    let err = compile_glob("a[").err().unwrap();
    assert!(err.starts_with("Invalid glob pattern: "));
}

#[test]
fn test_fallback_convert_basic_html() {
    let html = "<html><body><h1>Title</h1><p>Paragraph text.</p></body></html>";
    let md = tools::web_fetch::fallback_convert(html);
    assert!(md.contains("Title"));
    assert!(md.contains("Paragraph text."));
}

#[test]
fn test_fallback_convert_empty_html() {
    let md = tools::web_fetch::fallback_convert("");
    assert!(md.is_empty() || md.trim().is_empty());
}

#[test]
fn test_integration_tool_description_has_prefix() {
    let defs = vec![tools::integration::IntegrationDefinition {
        name: "github".to_string(),
        actions: vec![tools::integration::IntegrationAction {
            name: "create_pull_request".to_string(),
            description: "Create a new pull request".to_string(),
            permission: tools::integration::ToolPermission::Allow,
        }],
    }];
    let specs = tools::integration::create_integration_tools(&defs);
    assert_eq!(specs.len(), 1);
    assert!(specs[0].description.contains("[github]"));
    assert_eq!(specs[0].description, "[github] Create a new pull request");
}

#[test]
fn lsp_file_path_resolves_against_working_directory() {
    let mut args = tools::misc_tools::LspArgs {
        operation: tools::misc_tools::LspOperation::Hover,
        file_path: "/abs/file.rs".to_string(),
        line: Some(1),
        character: Some(1),
        query: None,
    };
    assert_eq!(args.resolve_file_path("/work"), "/abs/file.rs");
    args.file_path = "src/main.rs".to_string();
    assert_eq!(args.resolve_file_path("/work"), "/work/src/main.rs");
    assert_eq!(args.resolve_file_path(""), "src/main.rs");
}

#[test]
fn grep_pattern_compiles_or_reports() {
    let mut args = tools::search_tools::GrepArgs {
        pattern: "fn main".to_string(),
        path: None,
        glob: None,
        file_type: None,
        output_mode: None,
        case_insensitive: Some(true),
        context_before: None,
        context_after: None,
        context: None,
        max_results: None,
    };
    assert!(tools::search_tools::compile_grep_pattern(&args).is_ok());
    args.pattern = "(".to_string();
    let err = tools::search_tools::compile_grep_pattern(&args).err().unwrap();
    assert!(err.starts_with("Invalid regex pattern: "));
}

#[test]
fn fetch_url_must_not_be_blank() {
    assert_eq!(tools::web_fetch::check_fetch_url("  \t"), Err("URL must not be empty".to_string()));
    assert_eq!(tools::web_fetch::check_fetch_url(""), Err("URL must not be empty".to_string()));
    assert_eq!(tools::web_fetch::check_fetch_url("https://example.com"), Ok(()));
}

#[test]
fn sub_agent_description_defaults_to_template() {
    let tool = tools::agent::SubAgentTool::new();
    assert_eq!(tool.name(), "sub_agent");
    assert!(tool.description().contains("{agents}"));
    let described = tools::agent::SubAgentTool {
        description: tools::agent::SubAgentTool::build_description(&[("coder".to_string(), "writes code".to_string())]),
    };
    assert!(described.description().contains("- coder: writes code"));
}
