use tools::builtin::{builtin_tool_names, filtered_tool_names, subagent_tool_names};
use tools::registry::{format_validation_error, JsonValue, ToolRegistry};

fn make_registry() -> ToolRegistry {
    let mut reg = ToolRegistry::new();
    for name in ["bash", "Read", "edit", "Grep"] {
        reg.register(name.to_string(), "stub".to_string());
    }
    reg
}

fn s(x: &str) -> String {
    x.to_string()
}

fn obj(members: Vec<(&str, JsonValue)>) -> JsonValue {
    JsonValue::Object(members.into_iter().map(|(k, v)| (k.to_string(), v)).collect())
}

fn type_of(t: &str) -> JsonValue {
    obj(vec![("type", JsonValue::Str(s(t)))])
}

#[test]
fn test_case_insensitive_lookup_exact() {
    let reg = make_registry();
    assert!(reg.get_case_insensitive("bash").is_some());
}

#[test]
fn test_case_insensitive_lookup_wrong_case() {
    let reg = make_registry();
    assert!(reg.get_case_insensitive("Bash").is_some());
    assert!(reg.get_case_insensitive("read").is_some());
}

#[test]
fn test_suggest_tool_close_match() {
    let reg = make_registry();
    let suggestion = reg.suggest_tool("rread");
    assert!(suggestion.is_some());
}

#[test]
fn test_suggest_tool_no_match() {
    let reg = make_registry();
    let suggestion = reg.suggest_tool("zzzzzzzzz");
    assert!(suggestion.is_none());
}

#[test]
fn test_unknown_tool_error_with_suggestion() {
    let reg = make_registry();
    let err = reg.unknown_tool_error("bassh");
    assert!(err.contains("Did you mean"));
    assert!(err.contains("bash"));
}

#[test]
fn test_unknown_tool_error_no_suggestion() {
    let reg = make_registry();
    let err = reg.unknown_tool_error("zzzzzzzzz");
    assert!(err.contains("Unknown tool 'zzzzzzzzz'"));
    assert!(err.contains("Available tools:"));
    assert!(!err.contains("Did you mean"));
}

#[test]
fn test_tool_names() {
    let reg = make_registry();
    let names = reg.tool_names();
    assert_eq!(names.len(), 4);
    assert!(names.contains(&"bash".to_string()));
    assert!(names.contains(&"Read".to_string()));
}

#[test]
fn test_format_validation_error_missing_fields() {
    let schema = obj(vec![
        ("properties", obj(vec![("command", type_of("string")), ("timeout", type_of("number"))])),
        ("required", JsonValue::Array(vec![JsonValue::Str(s("command"))])),
    ]);
    let msg = format_validation_error("bash", "missing required property", &schema);
    assert!(msg.contains("Invalid arguments for tool 'bash'"));
    assert!(msg.contains("missing required"));
    assert!(msg.contains("command"));
}

#[test]
fn test_format_validation_error_wrong_type() {
    let schema = obj(vec![
        ("properties", obj(vec![("command", type_of("string"))])),
        ("required", JsonValue::Array(vec![JsonValue::Str(s("command"))])),
    ]);
    let msg = format_validation_error("bash", "expected string, got number", &schema);
    assert!(msg.contains("wrong type"));
    assert!(msg.contains("command"));
}

#[test]
fn test_format_validation_error_no_required_fields() {
    let schema = obj(vec![("properties", obj(vec![("optional_field", type_of("string"))]))]);
    let msg = format_validation_error("test", "some error", &schema);
    assert!(msg.contains("Invalid arguments for tool 'test'"));
    assert!(msg.contains("See tool description"));
}

#[test]
fn validation_error_exact_texts() {
    let schema = obj(vec![
        ("properties", obj(vec![])),
        ("required", JsonValue::Array(vec![JsonValue::Str(s("a")), JsonValue::Bool(true), JsonValue::Str(s("b"))])),
    ]);
    assert_eq!(
        format_validation_error("t", "missing a", &schema),
        "Invalid arguments for tool 't': missing required field(s). Required fields: [a, b]. See tool description for usage."
    );
    assert_eq!(
        format_validation_error("t", "first line\nsecond", &JsonValue::Null),
        "Invalid arguments for tool 't': first line. See tool description for usage."
    );
    assert_eq!(
        format_validation_error("t", "", &JsonValue::Null),
        "Invalid arguments for tool 't': . See tool description for usage."
    );
}

#[test]
fn validation_error_reads_definitions() {
    let schema = obj(vec![(
        "$defs",
        obj(vec![
            ("Other", obj(vec![("title", JsonValue::Str(s("x")))])),
            (
                "Args",
                obj(vec![
                    ("properties", obj(vec![])),
                    ("required", JsonValue::Array(vec![JsonValue::Str(s("path"))])),
                ]),
            ),
        ]),
    )]);
    assert_eq!(
        format_validation_error("Read", "invalid type: integer", &schema),
        "Invalid arguments for tool 'Read': wrong type for field(s). Required fields: [path]. See tool description for usage."
    );
}

#[test]
fn validation_error_ignores_required_without_properties() {
    let schema = obj(vec![("required", JsonValue::Array(vec![JsonValue::Str(s("a"))]))]);
    assert_eq!(
        format_validation_error("t", "oops", &schema),
        "Invalid arguments for tool 't': oops. See tool description for usage."
    );
}

#[test]
fn unknown_tool_error_exact_text() {
    let reg = make_registry();
    assert_eq!(
        reg.unknown_tool_error("bassh"),
        "Unknown tool 'bassh'. Did you mean 'bash'? Available tools: [bash, Read, edit, Grep]"
    );
    assert_eq!(
        reg.unknown_tool_error("qqqqqqqqqq"),
        "Unknown tool 'qqqqqqqqqq'. Available tools: [bash, Read, edit, Grep]"
    );
}

#[test]
fn register_replaces_in_place_and_remove_forgets() {
    let mut reg = make_registry();
    reg.register(s("edit"), s("new description"));
    assert_eq!(reg.tool_names(), vec![s("bash"), s("Read"), s("edit"), s("Grep")]);
    assert_eq!(reg.get("edit"), Some(s("new description")));
    reg.remove("Read");
    assert_eq!(reg.get("Read"), None);
    assert_eq!(reg.list().len(), 3);
    reg.remove("absent");
    assert_eq!(reg.list().len(), 3);
}

#[test]
fn case_insensitive_returns_registered_name() {
    let reg = make_registry();
    assert_eq!(reg.get_case_insensitive("GREP"), Some(s("Grep")));
    assert_eq!(reg.get_case_insensitive("write"), None);
}

#[test]
fn merge_keeps_existing_tools() {
    let mut a = make_registry();
    let mut b = ToolRegistry::new();
    b.register(s("bash"), s("other bash"));
    b.register(s("web_fetch"), s("fetch"));
    a.merge(b);
    assert_eq!(a.get("bash"), Some(s("stub")));
    assert_eq!(a.get("web_fetch"), Some(s("fetch")));
    assert_eq!(a.tool_names().len(), 5);
}

fn registry_of(names: Vec<String>) -> ToolRegistry {
    let mut reg = ToolRegistry::new();
    for n in names {
        reg.register(n, String::new());
    }
    reg
}

#[test]
fn test_register_all_builtin_tools() {
    let registry = registry_of(builtin_tool_names(false, false));
    for name in ["bash", "Read", "edit", "write", "RipGrep", "AstGrep", "Glob", "todowrite", "todoread", "batch"] {
        assert!(registry.get(name).is_some(), "missing {name}");
    }
}

#[test]
fn test_filtered_empty_list_registers_nothing() {
    let registry = registry_of(filtered_tool_names(&[], false, false));
    assert!(registry.list().is_empty());
}

#[test]
fn test_filtered_specific_tools() {
    let allowed = vec!["bash".to_string(), "Read".to_string()];
    let registry = registry_of(filtered_tool_names(&allowed, false, false));
    assert!(registry.get("bash").is_some());
    assert!(registry.get("Read").is_some());
    assert!(registry.get("edit").is_none());
    assert!(registry.get("write").is_none());
}

#[test]
fn test_filtered_unknown_names_ignored() {
    let allowed = vec!["bash".to_string(), "nonexistent_tool".to_string()];
    let registry = registry_of(filtered_tool_names(&allowed, false, false));
    assert!(registry.get("bash").is_some());
    assert!(registry.get("nonexistent_tool").is_none());
    assert_eq!(registry.list().len(), 1);
}

#[test]
fn builtin_names_in_order() {
    let names = builtin_tool_names(true, true);
    assert_eq!(
        names,
        vec![
            "Read", "Glob", "LS", "AstGrep", "RipGrep", "bash", "edit", "write", "apply_patch", "multiedit",
            "web_fetch", "web_crawl", "web_search", "web_get_links", "web_screenshot", "web_transform",
            "todowrite", "todoread", "lsp", "ping_me_back_in", "cancel_ping_me_back", "agent", "sub_agent",
            "batch",
        ]
    );
    let sub = subagent_tool_names(false);
    assert!(!sub.contains(&s("agent")));
    assert!(!sub.contains(&s("sub_agent")));
    assert!(!sub.contains(&s("ping_me_back_in")));
    assert_eq!(sub.last(), Some(&s("batch")));
}

#[test]
fn filtered_names_follow_registration_order() {
    let allowed = vec![s("batch"), s("web_crawl"), s("web_search"), s("lsp"), s("Read")];
    assert_eq!(filtered_tool_names(&allowed, true, true), vec!["Read", "web_search", "web_crawl", "lsp", "batch"]);
    assert_eq!(filtered_tool_names(&allowed, false, false), vec!["Read", "batch"]);
}
