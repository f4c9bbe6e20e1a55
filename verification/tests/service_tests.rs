use tools::agent_tools::TaskResult;
use tools::integration::{
    action_read_failed, action_reply, action_retryable, action_send_failed, action_url, create_integration_tools,
    integration_tool_name, parse_integration_tool_name, IntegrationAction, IntegrationDefinition, ToolPermission,
};
use tools::lsp_results::{
    call_result, convert_document_symbol, diagnostic_result, diagnostics_report, empty_answer, format_diagnostic,
    hover_text, location_result, markup_content_to_string, no_server_error, select_workspace_symbols, Diagnostic,
    DocumentSymbol, HoverContents, MarkedString, Position,
};
use tools::misc_tools::LspOperation;
use tools::ping::{cancel_ping, format_pending_pings_reminder, ping_me_back, CancelPingArgs, PingMeBackArgs, PingState};
use tools::read::{image_payload, pdf_payload};
use tools::search_tools::sink_entry;
use tools::similar_files::suggest_similar_files;
use tools::tasks::TaskRegistry;

fn s(x: &str) -> String {
    x.to_string()
}

fn action(name: &str, description: &str, permission: ToolPermission) -> IntegrationAction {
    IntegrationAction { name: s(name), description: s(description), permission }
}

#[test]
fn test_create_integration_tools_filters_deny() {
    let integrations = vec![IntegrationDefinition {
        name: s("github"),
        actions: vec![
            action("list_issues", "List issues", ToolPermission::Allow),
            action("delete_repo", "Delete repo", ToolPermission::Deny),
            action("create_pr", "Create PR", ToolPermission::RequireApproval),
        ],
    }];
    let tools = create_integration_tools(&integrations);
    assert_eq!(tools.len(), 2);
    let names: Vec<&str> = tools.iter().map(|t| t.tool_name.as_str()).collect();
    assert!(names.contains(&"github__list_issues"));
    assert!(names.contains(&"github__create_pr"));
    assert!(!names.contains(&"github__delete_repo"));
    assert_eq!(tools[0].description, "[github] List issues");
}

#[test]
fn test_create_integration_tools_returns_permissions() {
    let integrations = vec![IntegrationDefinition {
        name: s("slack"),
        actions: vec![
            action("send_message", "Send", ToolPermission::RequireApproval),
            action("list_channels", "List", ToolPermission::Allow),
        ],
    }];
    let tools = create_integration_tools(&integrations);
    assert_eq!(tools.len(), 2);
    let send = tools.iter().find(|t| t.tool_name == "slack__send_message");
    assert_eq!(send.unwrap().permission, ToolPermission::RequireApproval);
    let list = tools.iter().find(|t| t.tool_name == "slack__list_channels");
    assert_eq!(list.unwrap().permission, ToolPermission::Allow);
}

#[test]
fn test_create_integration_tools_empty_integrations() {
    let tools = create_integration_tools(&vec![]);
    assert!(tools.is_empty());
}

#[test]
fn test_integration_tool_name_format() {
    assert_eq!(integration_tool_name("github", "create_pull_request"), "github__create_pull_request");
}

#[test]
fn integration_requests_and_replies() {
    assert_eq!(
        action_url("http://localhost:3000", "github", "create_pr"),
        "http://localhost:3000/integrations/github/actions/create_pr"
    );
    assert_eq!(action_reply(500, "500 Internal Server Error", "boom").unwrap_err(), "Server error 500 Internal Server Error: boom");
    assert_eq!(action_reply(404, "404 Not Found", "Unknown action").unwrap(), "Unknown action");
    assert_eq!(action_reply(200, "200 OK", "{}").unwrap(), "{}");
    assert!(action_retryable(&action_send_failed("refused")));
    assert!(action_retryable("Server error 503: x"));
    assert!(!action_retryable(&action_read_failed("eof")));
    assert_eq!(action_read_failed("eof"), "Failed to read integration response: eof");
}

#[test]
fn tool_name_round_trip() {
    let name = integration_tool_name("github", "_private");
    assert_eq!(parse_integration_tool_name(&name), Some(("github", "_private")));
    let odd = integration_tool_name("git_", "x");
    assert_eq!(parse_integration_tool_name(&odd), Some(("git", "_x")));
}

#[test]
fn test_registry_complete_before_register() {
    let mut registry: TaskRegistry<u32> = TaskRegistry::new();
    let (_, waiters) = registry.complete(s("task-1"), Ok(s("output")));
    assert!(waiters.is_empty());
    let (result, _) = registry.register(s("task-1"), 1).unwrap();
    assert_eq!(result.task_id, "task-1");
    assert_eq!(result.status, "completed");
    assert_eq!(result.output, Some(s("output")));
}

#[test]
fn test_registry_multiple_waiters() {
    let mut registry: TaskRegistry<u32> = TaskRegistry::new();
    assert!(registry.register(s("task-1"), 1).is_none());
    assert!(registry.register(s("task-1"), 2).is_none());
    assert!(registry.register(s("task-2"), 3).is_none());
    let (result, waiters) = registry.complete(s("task-1"), Ok(s("shared output")));
    assert_eq!(waiters, vec![1, 2]);
    assert_eq!(result.output, Some(s("shared output")));
    let (failed, waiters2) = registry.complete(s("task-2"), Err(s("boom")));
    assert_eq!(waiters2, vec![3]);
    assert_eq!(failed.status, "failed");
    assert_eq!(failed.error, Some(s("boom")));
    let got: Vec<TaskResult> = registry.get_completed(&[s("task-2"), s("nope"), s("task-1")]);
    assert_eq!(got.len(), 2);
    assert_eq!(got[0].task_id, "task-2");
    assert_eq!(got[1].task_id, "task-1");
    assert!(registry.is_completed("nope").is_none());
}

#[test]
fn ping_scheduling() {
    let mut state = PingState::new();
    let reply = ping_me_back(&mut state, PingMeBackArgs { seconds: 300, message: s("check the deployment") }, 1_000, 0)
        .unwrap();
    assert!(reply.contains("Ping scheduled"));
    assert!(reply.contains("300 seconds"));
    assert!(reply.contains("Ping ID:"));
    let pings = state.list();
    assert_eq!(pings.len(), 1);
    assert_eq!(pings[0].message, "check the deployment");
    assert_eq!(pings[0].id.len(), 8);
    assert_eq!(pings[0].fires_at, 301_000);
    assert_eq!(state.next_fire_time(), Some(301_000));
}

#[test]
fn ping_zero_seconds_rejected() {
    let mut state = PingState::new();
    let r = ping_me_back(&mut state, PingMeBackArgs { seconds: 0, message: s("nope") }, 0, 0);
    assert_eq!(r.unwrap_err(), "seconds must be greater than 0");
    assert!(state.list().is_empty());
}

#[test]
fn ping_clamps_to_max_delay() {
    let mut state = PingState::new();
    let r = ping_me_back(&mut state, PingMeBackArgs { seconds: 99_999, message: s("long") }, 0, 0).unwrap();
    assert!(r.contains("3600 seconds"));
    assert_eq!(state.list()[0].delay_secs, 3600);
}

#[test]
fn ping_cancel() {
    let mut state = PingState::new();
    let id = state.add(s("test"), 300, 0, 0);
    let ok = cancel_ping(&mut state, &CancelPingArgs { id: id.clone() }).unwrap();
    assert_eq!(ok, format!("Ping '{id}' cancelled."));
    assert!(state.list().is_empty());
    let err = cancel_ping(&mut state, &CancelPingArgs { id: s("nonexistent") }).unwrap_err();
    assert_eq!(err, "Ping 'nonexistent' not found. It may have already fired or been cancelled.");
}

#[test]
fn ping_pop_fired_partitions() {
    let mut state = PingState::new();
    state.add_with_id(s("a"), s("first"), 1, 0, 0);
    state.add_with_id(s("b"), s("second"), 10, 0, 0);
    state.add_with_id(s("c"), s("third"), 2, 0, 0);
    let fired = state.pop_fired(2_000);
    let ids: Vec<String> = fired.iter().map(|p| p.id.clone()).collect();
    assert_eq!(ids, vec![s("a"), s("c")]);
    let left = state.list();
    assert_eq!(left.len(), 1);
    assert_eq!(left[0].id, "b");
    assert_eq!(state.next_fire_time(), Some(10_000));
}

#[test]
fn ping_reminder_text() {
    assert_eq!(format_pending_pings_reminder(&[], 0), "");
    let mut state = PingState::new();
    state.add_with_id(s("abc123"), s("check build"), 120, 0, 0);
    let text = format_pending_pings_reminder(&state.list(), 500);
    assert_eq!(
        text,
        "## Pending Ping-Me-Back Timers\n\n- **abc123** \u{2014} fires in ~119s: check build\n\nUse `cancel_ping_me_back` to cancel any pending ping."
    );
}

fn diag(severity: i32, line: u32, col: u32, msg: &str) -> Diagnostic {
    Diagnostic { severity: Some(severity), start: Position { line, character: col }, message: s(msg), source: None }
}

#[test]
fn test_format_diagnostic_error() {
    assert_eq!(format_diagnostic(&diag(1, 9, 4, "expected `;`")), "ERROR [10:5] expected `;`");
}

#[test]
fn test_format_diagnostic_warning() {
    assert_eq!(format_diagnostic(&diag(2, 0, 0, "unused variable")), "WARNING [1:1] unused variable");
}

#[test]
fn test_format_diagnostic_info() {
    assert_eq!(format_diagnostic(&diag(3, 5, 10, "consider refactoring")), "INFO [6:11] consider refactoring");
}

#[test]
fn diagnostics_report_lists_errors_only() {
    assert_eq!(diagnostics_report(&[diag(2, 0, 0, "w")]), "");
    let ds = vec![diag(1, 0, 0, "a"), diag(2, 1, 1, "w"), diag(1, 2, 3, "b")];
    assert_eq!(diagnostics_report(&ds), "\n\nLSP Diagnostics (2 error(s)):\n  ERROR [1:1] a\n  ERROR [3:4] b\n");
    let many: Vec<Diagnostic> = (0..23).map(|i| diag(1, i, 0, "e")).collect();
    let report = diagnostics_report(&many);
    assert!(report.starts_with("\n\nLSP Diagnostics (23 error(s)):\n"));
    assert!(report.ends_with("  ERROR [20:1] e\n  ... and 3 more error(s)\n"));
}

#[test]
fn lsp_results_are_one_based() {
    let l = location_result(s("/src/main.rs"), Position { line: 0, character: 4 });
    assert_eq!((l.file.as_str(), l.line, l.character), ("/src/main.rs", 1, 5));
    let c = call_result(s("f"), s("/a.rs"), Position { line: 9, character: 0 });
    assert_eq!((c.line, c.character), (10, 1));
    let mut d = diag(4, 2, 2, "h");
    d.source = Some(s("rustc"));
    let r = diagnostic_result(&d);
    assert_eq!(r.severity, "hint");
    assert_eq!(r.source, Some(s("rustc")));
    let mut u = diag(9, 0, 0, "x");
    u.severity = None;
    assert_eq!(diagnostic_result(&u).severity, "unknown");
    assert_eq!(format_diagnostic(&u), "DIAGNOSTIC [1:1] x");
}

#[test]
fn document_symbols_convert_recursively() {
    let leaf = DocumentSymbol {
        name: s("inner"),
        kind: s("Method"),
        start: Position { line: 2, character: 4 },
        end: Position { line: 3, character: 5 },
        children: vec![],
    };
    let root = DocumentSymbol {
        name: s("Outer"),
        kind: s("Struct"),
        start: Position { line: 0, character: 0 },
        end: Position { line: 10, character: 1 },
        children: vec![leaf],
    };
    let r = convert_document_symbol(&root);
    assert_eq!(r.name, "Outer");
    assert_eq!((r.range.start_line, r.range.end_line, r.range.end_character), (1, 11, 2));
    assert_eq!(r.children.len(), 1);
    assert_eq!(r.children[0].kind, "Method");
    assert_eq!((r.children[0].range.start_line, r.children[0].range.start_character), (3, 5));
}

#[test]
fn workspace_symbols_filtered_and_limited() {
    assert_eq!(select_workspace_symbols(&[5, 1, 12, 2, 23]), vec![0, 2, 4]);
    let many = vec![6u32; 15];
    assert_eq!(select_workspace_symbols(&many), (0..10).collect::<Vec<usize>>());
}

#[test]
fn hover_rendering() {
    let code = MarkedString::LanguageString { language: s("rust"), value: s("fn f()") };
    assert_eq!(markup_content_to_string(&code), "```rust\nfn f()\n```");
    let arr = HoverContents::Array(vec![MarkedString::Plain(s("a")), code]);
    assert_eq!(hover_text(&arr), "a\n\n```rust\nfn f()\n```");
    assert_eq!(hover_text(&HoverContents::Markup(s("**b**"))), "**b**");
    assert_eq!(empty_answer(LspOperation::WorkspaceSymbol, "Foo"), "No workspace symbols found for query 'Foo'.");
    assert_eq!(empty_answer(LspOperation::FindReferences, ""), "No references found.");
    assert_eq!(no_server_error(None), "no LSP server available for file type: unknown");
    assert_eq!(no_server_error(Some("zig")), "no LSP server available for file type: zig");
}

#[test]
fn similar_file_suggestions() {
    let names = vec![s("config.rs"), s("other.txt"), s("CONFIG.RS.bak"), s("confg.rs.orig")];
    let r = suggest_similar_files("/d/confg.rs", "/d", &names);
    assert_eq!(r, vec![s("/d/config.rs"), s("/d/confg.rs.orig"), s("/d/CONFIG.RS.bak")]);
    assert!(suggest_similar_files("/", "/", &names).is_empty());
}

#[test]
fn binary_payloads() {
    let p = image_payload("/a/B.PNG", &[1, 2, 3]);
    assert_eq!((p.kind.as_str(), p.format.as_str(), p.data.as_str(), p.size_bytes), ("image", "png", "AQID", 3));
    assert_eq!(image_payload("/a/noext", &[]).format, "bin");
    let q = pdf_payload(b"%PDF");
    assert_eq!((q.kind.as_str(), q.format.as_str(), q.data.as_str(), q.size_bytes), ("file", "pdf", "JVBERg==", 4));
}

#[test]
fn search_lines_trimmed() {
    let m = sink_entry("src/a.rs", b"let x = 1;  \r\n", Some(3), false);
    assert_eq!(m.content, "let x = 1;");
    assert_eq!(m.line_number, Some(3));
    assert!(!m.is_context);
    let c = sink_entry("f", &[0x66, 0xff, 0x0a], None, true);
    assert_eq!(c.content, "f\u{fffd}");
    assert!(c.is_context);
}
