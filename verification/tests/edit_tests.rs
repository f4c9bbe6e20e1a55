use tools::edit::{appended_content, apply_edit, apply_edits, line_count, normalize_line_endings, plan_edit, snippet, try_apply_edit, EditTool, MultiEditTool, SingleEdit};
use tools::edit_strategies::{
    all_strategies, normalize_escapes, normalize_whitespace, BlockAnchorReplacer, ContextAwareReplacer, EscapeNormalizedReplacer,
    IndentationFlexibleReplacer, LineTrimmedReplacer, MultiOccurrenceReplacer, SimpleReplacer, TrimmedBoundaryReplacer,
    WhitespaceNormalizedReplacer,
};

#[test]
fn test_simple_exact_match() {
    let r = SimpleReplacer;
    let result = r.try_replace("hello world", "world", "rust", false);
    assert_eq!(result, Some(("hello rust".to_string(), 1)));
}

#[test]
fn test_simple_no_match() {
    let r = SimpleReplacer;
    assert!(r.try_replace("hello", "world", "rust", false).is_none());
}

#[test]
fn test_line_trimmed_match() {
    let r = LineTrimmedReplacer;
    let content = "  hello\n  world\n";
    let result = r.try_replace(content, "hello\nworld", "foo\nbar", false);
    assert!(result.is_some());
    let (new_content, count) = result.unwrap();
    assert_eq!(count, 1);
    assert!(new_content.contains("foo"));
}

#[test]
fn test_whitespace_normalized() {
    let r = WhitespaceNormalizedReplacer;
    let content = "hello   world\n";
    let result = r.try_replace(content, "hello world", "hello rust", false);
    assert!(result.is_some());
}

#[test]
fn test_indentation_flexible() {
    let r = IndentationFlexibleReplacer;
    let content = "    fn main() {\n        println!(\"old\");\n    }\n";
    let old = "fn main() {\n    println!(\"old\");\n}";
    let new = "fn main() {\n    println!(\"new\");\n}";
    let result = r.try_replace(content, old, new, false);
    assert!(result.is_some());
    let (new_content, _) = result.unwrap();
    assert!(new_content.contains("new"));
}

#[test]
fn test_escape_normalized() {
    let r = EscapeNormalizedReplacer;
    let content = "line one\nline two\n";
    let result = r.try_replace(content, "line one\\nline two", "replaced", false);
    assert!(result.is_some());
}

#[test]
fn test_block_anchor_fuzzy() {
    let r = BlockAnchorReplacer;
    let content = "fn main() {\n    println!(\"hello\");\n}\n";
    let old = "fn main()  {\n    println!(\"hello\");\n}";
    let new = "fn main() {\n    println!(\"world\");\n}";
    let result = r.try_replace(content, old, new, false);
    assert!(result.is_some());
}

#[test]
fn test_multi_occurrence_replace_all() {
    let r = MultiOccurrenceReplacer;
    let content = "aaa\nbbb\naaa\n";
    let result = r.try_replace(content, "aaa", "ccc", true);
    assert!(result.is_some());
    let (new_content, count) = result.unwrap();
    assert_eq!(count, 2);
    assert!(!new_content.contains("aaa"));
}

#[test]
fn test_all_strategies_chain() {
    let strategies = all_strategies();
    assert_eq!(strategies.len(), 9);
    let content = "hello world";
    for strategy in &strategies {
        if let Some((result, count)) = strategy.try_replace(content, "world", "rust", false) {
            assert_eq!(result, "hello rust");
            assert_eq!(count, 1);
            assert_eq!(strategy.name(), "simple");
            return;
        }
    }
    panic!("No strategy matched");
}

#[test]
fn test_apply_edit_exact_match() {
    let content = "hello world\nfoo bar\nbaz qux\n";
    let (result, count) = apply_edit(content, "foo bar", "foo replaced", false).unwrap();
    assert!(result.contains("foo replaced"));
    assert!(!result.contains("foo bar"));
    assert_eq!(count, 1);
}

#[test]
fn test_apply_edit_not_found() {
    let content = "hello world\n";
    let err = apply_edit(content, "not here", "replacement", false).unwrap_err();
    assert!(err.contains("not found"));
}

#[test]
fn test_apply_edit_multiple_matches_no_replace_all() {
    let content = "aaa\nbbb\naaa\n";
    let (result, count) = apply_edit(content, "aaa", "ccc", false).unwrap();
    assert_eq!(count, 1);
    assert!(result.starts_with("ccc\n"));
    assert!(result.contains("\naaa\n"));
}

#[test]
fn test_apply_edit_replace_all() {
    let content = "aaa\nbbb\naaa\n";
    let (result, count) = apply_edit(content, "aaa", "ccc", true).unwrap();
    assert_eq!(result.matches("ccc").count(), 2);
    assert_eq!(count, 2);
}

#[test]
fn test_apply_edit_identical_strings() {
    let content = "hello\n";
    let err = apply_edit(content, "hello", "hello", false).unwrap_err();
    assert!(err.contains("identical"));
}

// ---------------------------------------------------------------------------
// Further cases
// ---------------------------------------------------------------------------

#[test]
fn simple_ambiguous_without_replace_all_is_no_match() {
    assert!(SimpleReplacer.try_replace("a a", "a", "b", false).is_none());
    assert_eq!(SimpleReplacer.try_replace("a a", "a", "b", true), Some(("b b".to_string(), 2)));
}

#[test]
fn simple_empty_pattern_matches_every_boundary() {
    assert_eq!(SimpleReplacer.try_replace("ab", "", "-", true), Some(("-a-b-".to_string(), 3)));
}

#[test]
fn line_trimmed_keeps_trailing_newline() {
    let (out, n) = LineTrimmedReplacer.try_replace("  a\n  b\nc\n", "a\nb", "x", false).unwrap();
    assert_eq!(out, "x\nc\n");
    assert_eq!(n, 1);
}

#[test]
fn whitespace_normalization_collapses_runs() {
    assert_eq!(normalize_whitespace("  a \t b\n\nc  "), "a b c");
}

#[test]
fn escape_normalization_of_sequences() {
    assert_eq!(normalize_escapes("a\\nb\\tc\\\"d\\'e\\\\f"), "a\nb\tc\"d'e\\f");
}

#[test]
fn escape_strategy_needs_a_change() {
    assert!(EscapeNormalizedReplacer.try_replace("abc", "b", "x", false).is_none());
}

#[test]
fn trimmed_boundary_replaces_inner_lines() {
    let out = TrimmedBoundaryReplacer.try_replace("keep\nmid1\nmid2\nend", "first\nmid1\nmid2\nlast", "NEW", false);
    assert_eq!(out, Some(("keep\nNEW\nend".to_string(), 1)));
    assert!(TrimmedBoundaryReplacer.try_replace("x", "a\nb", "c", false).is_none());
}

#[test]
fn context_aware_uses_anchor_lines() {
    let content = "start\nfn f() {\n  body();\n}\nend\n";
    let old = "fn f() {\n  bodyy();\n}";
    let (out, n) = ContextAwareReplacer.try_replace(content, old, "fn g() {}", false).unwrap();
    assert_eq!(out, "start\nfn g() {}\nend\n");
    assert_eq!(n, 1);
}

#[test]
fn context_aware_rejects_dissimilar_block() {
    let content = "fn f() {\n  completely different text here\n}\n";
    let old = "fn f() {\n  x\n}";
    assert!(ContextAwareReplacer.try_replace(content, old, "y", false).is_none());
}

#[test]
fn block_anchor_ambiguous_candidates_are_refused() {
    let content = "abcd\nx\nabcd\n";
    assert!(BlockAnchorReplacer.try_replace(content, "abce", "z", false).is_none());
}

#[test]
fn indentation_flexible_reindents() {
    let content = "  a\n    b\n";
    let (out, _) = IndentationFlexibleReplacer.try_replace(content, "a\n  b", "c\nd", false).unwrap();
    assert_eq!(out, "  c\n  d\n");
}

#[test]
fn multi_occurrence_first_of_several() {
    assert_eq!(MultiOccurrenceReplacer.try_replace("x y x", "x", "z", false), Some(("z y x".to_string(), 1)));
    assert!(MultiOccurrenceReplacer.try_replace("x y", "x", "z", false).is_none());
}

#[test]
fn strategy_names() {
    let names: Vec<&str> = all_strategies().iter().map(|s| s.name()).collect();
    assert_eq!(
        names,
        vec![
            "simple",
            "line_trimmed",
            "block_anchor",
            "whitespace_normalized",
            "indentation_flexible",
            "escape_normalized",
            "trimmed_boundary",
            "context_aware",
            "multi_occurrence"
        ]
    );
    assert_eq!(LineTrimmedReplacer.name(), "line_trimmed");
}

#[test]
fn unique_exact_match_is_single_replacement() {
    assert_eq!(apply_edit("one two three", "two", "2", false), Ok(("one 2 three".to_string(), 1)));
}

#[test]
fn replace_all_counts_occurrences() {
    assert_eq!(apply_edit("a-a-a", "a", "b", true), Ok(("b-b-b".to_string(), 3)));
}

#[test]
fn try_apply_edit_reports_result() {
    assert_eq!(try_apply_edit("abc", "b", "B", false), Some(Ok(("aBc".to_string(), 1))));
}

#[test]
fn line_endings_normalized() {
    assert_eq!(normalize_line_endings("a\r\nb\rc\n"), "a\nb\nc\n");
}

#[test]
fn snippets_cut_at_byte_limit() {
    assert_eq!(snippet("hello", 10), Some("hello".to_string()));
    assert_eq!(snippet("hello world", 5), Some("hello...".to_string()));
    assert_eq!(snippet("\u{e9}\u{e9}", 1), None);
}

#[test]
fn plan_edit_counts_lines() {
    let plan = plan_edit("line1\nline2\nline3\n", "line2", "line2a\nline2b\nline2c", false);
    let (content, n, added, removed) = plan.unwrap().unwrap();
    assert_eq!(content, "line1\nline2a\nline2b\nline2c\nline3\n");
    assert_eq!((n, added, removed), (1, 2, 0));
}

#[test]
fn plan_edit_normalizes_crlf() {
    let (content, _, _, _) = plan_edit("line one\r\nline two\r\n", "line two", "line TWO", false).unwrap().unwrap();
    assert_eq!(content, "line one\nline TWO\n");
}

#[test]
fn appending_to_content() {
    assert_eq!(appended_content("original\n", "appended\r\n"), "original\nappended\n");
    assert_eq!(line_count("a\nb\n"), 2);
}

#[test]
fn multiple_edits_apply_in_order() {
    let edits = vec![
        SingleEdit { old_string: "a".to_string(), new_string: "b".to_string(), replace_all: None },
        SingleEdit { old_string: "b".to_string(), new_string: "c".to_string(), replace_all: Some(true) },
    ];
    assert_eq!(apply_edits("a b", &edits), Some(Ok(("c c".to_string(), 3))));
}

#[test]
fn failing_edit_names_its_position() {
    let edits = vec![
        SingleEdit { old_string: "a".to_string(), new_string: "b".to_string(), replace_all: None },
        SingleEdit { old_string: "zzz".to_string(), new_string: "y".to_string(), replace_all: None },
    ];
    assert_eq!(
        apply_edits("a", &edits),
        Some(Err("Edit #2 failed: oldString not found in file content".to_string()))
    );
}

#[test]
fn no_edits_keep_content() {
    assert_eq!(apply_edits("x", &vec![]), Some(Ok(("x".to_string(), 0))));
}

#[test]
fn edit_tool_names() {
    assert_eq!(EditTool::new().name(), "edit");
    assert_eq!(MultiEditTool::new().name(), "multiedit");
}
