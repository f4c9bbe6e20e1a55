use tools::patch_apply::{apply_replacements, compute_replacements, patch_hunks, seek_sequence, summary_line, update_file_content, ApplyPatchTool};
use tools::patch_parse::{parse_patch, strip_heredoc, Hunk, UpdateChunk};

fn check_add_file() {
    let patch = r#"*** Begin Patch
*** Add File: hello.txt
+Hello world
+Second line
*** End Patch"#;
    let hunks = parse_patch(patch).expect("parse");
    assert_eq!(hunks.len(), 1);
    match &hunks[0] {
        Hunk::Add { path, contents } => {
            assert_eq!(path, "hello.txt");
            assert_eq!(contents, "Hello world\nSecond line");
        }
        _ => panic!("expected Add hunk"),
    }
}

fn check_delete_file() {
    let patch = r#"*** Begin Patch
*** Delete File: old.txt
*** End Patch"#;
    let hunks = parse_patch(patch).expect("parse");
    assert_eq!(hunks.len(), 1);
    match &hunks[0] {
        Hunk::Delete { path } => assert_eq!(path, "old.txt"),
        _ => panic!("expected Delete hunk"),
    }
}

fn check_update_file() {
    let patch = r#"*** Begin Patch
*** Update File: src/main.rs
@@ fn main() {
-    println!("old");
+    println!("new");
*** End Patch"#;
    let hunks = parse_patch(patch).expect("parse");
    assert_eq!(hunks.len(), 1);
    match &hunks[0] {
        Hunk::Update { path, chunks, .. } => {
            assert_eq!(path, "src/main.rs");
            assert_eq!(chunks.len(), 1);
            assert_eq!(chunks[0].old_lines, vec!["    println!(\"old\");"]);
            assert_eq!(chunks[0].new_lines, vec!["    println!(\"new\");"]);
        }
        _ => panic!("expected Update hunk"),
    }
}

fn check_with_move() {
    let patch = r#"*** Begin Patch
*** Update File: old/path.rs
*** Move to: new/path.rs
@@ fn hello() {
-    println!("hi");
+    println!("hello");
*** End Patch"#;
    let hunks = parse_patch(patch).expect("parse");
    assert_eq!(hunks.len(), 1);
    match &hunks[0] {
        Hunk::Update { path, move_path, .. } => {
            assert_eq!(path, "old/path.rs");
            assert_eq!(move_path.as_deref(), Some("new/path.rs"));
        }
        _ => panic!("expected Update hunk"),
    }
}

fn check_missing_markers() {
    let patch = "just some text";
    assert!(parse_patch(patch).is_err());
}

fn check_seek_exact() {
    let lines: Vec<String> = vec!["line 1".to_string(), "line 2".to_string(), "line 3".to_string()];
    let pattern = vec!["line 2".to_string()];
    assert_eq!(seek_sequence(&lines, &pattern, 0, false), Some(1));
}

fn check_seek_trimmed() {
    let lines: Vec<String> = vec!["  line 1  ".to_string(), "  line 2  ".to_string()];
    let pattern = vec!["line 2".to_string()];
    assert_eq!(seek_sequence(&lines, &pattern, 0, false), Some(1));
}

fn check_seek_not_found() {
    let lines: Vec<String> = vec!["line 1".to_string()];
    let pattern = vec!["line 99".to_string()];
    assert_eq!(seek_sequence(&lines, &pattern, 0, false), None);
}

fn check_strip_heredoc() {
    let input = "cat <<'EOF'\nhello\nworld\nEOF";
    assert_eq!(strip_heredoc(input), "hello\nworld");
}

fn check_strip_heredoc_no_match() {
    let input = "just regular text";
    assert_eq!(strip_heredoc(input), "just regular text");
}

fn check_crlf() {
    let patch = "*** Begin Patch\r\n*** Add File: hello.txt\r\n+Hello world\r\n+Second line\r\n*** End Patch\r\n";
    let hunks = parse_patch(patch).expect("parse");
    assert_eq!(hunks.len(), 1);
    match &hunks[0] {
        Hunk::Add { path, contents } => {
            assert_eq!(path, "hello.txt");
            assert_eq!(contents, "Hello world\nSecond line");
        }
        _ => panic!("expected Add hunk"),
    }
}

fn check_reverse_order() {
    let lines: Vec<String> = vec!["a".to_string(), "b".to_string(), "c".to_string(), "d".to_string()];
    let replacements = vec![(1, 1, vec!["B1".to_string(), "B2".to_string()]), (3, 1, vec!["D1".to_string()])];
    let result = apply_replacements(&lines, &replacements);
    assert_eq!(result, vec!["a", "B1", "B2", "c", "D1"]);
}

#[test]
fn apply_patch_test_parse_patch_add_file() {
    check_add_file();
}
#[test]
fn tests_test_parse_patch_add_file() {
    check_add_file();
}
#[test]
fn apply_patch_test_parse_patch_delete_file() {
    check_delete_file();
}
#[test]
fn tests_test_parse_patch_delete_file() {
    check_delete_file();
}
#[test]
fn apply_patch_test_parse_patch_update_file() {
    check_update_file();
}
#[test]
fn tests_test_parse_patch_update_file() {
    check_update_file();
}
#[test]
fn apply_patch_test_parse_patch_with_move() {
    check_with_move();
}
#[test]
fn tests_test_parse_patch_with_move() {
    check_with_move();
}
#[test]
fn apply_patch_test_parse_patch_missing_markers() {
    check_missing_markers();
}
#[test]
fn tests_test_parse_patch_missing_markers() {
    check_missing_markers();
}
#[test]
fn apply_patch_test_seek_sequence_exact() {
    check_seek_exact();
}
#[test]
fn tests_test_seek_sequence_exact() {
    check_seek_exact();
}
#[test]
fn apply_patch_test_seek_sequence_trimmed() {
    check_seek_trimmed();
}
#[test]
fn tests_test_seek_sequence_trimmed() {
    check_seek_trimmed();
}
#[test]
fn apply_patch_test_seek_sequence_not_found() {
    check_seek_not_found();
}
#[test]
fn tests_test_seek_sequence_not_found() {
    check_seek_not_found();
}
#[test]
fn apply_patch_test_strip_heredoc() {
    check_strip_heredoc();
}
#[test]
fn tests_test_strip_heredoc() {
    check_strip_heredoc();
}
#[test]
fn apply_patch_test_strip_heredoc_no_match() {
    check_strip_heredoc_no_match();
}
#[test]
fn tests_test_strip_heredoc_no_match() {
    check_strip_heredoc_no_match();
}
#[test]
fn apply_patch_test_parse_patch_crlf_normalized() {
    check_crlf();
}
#[test]
fn tests_test_parse_patch_crlf_normalized() {
    check_crlf();
}
#[test]
fn apply_patch_test_apply_replacements_reverse_order() {
    check_reverse_order();
}
#[test]
fn tests_test_apply_replacements_reverse_order() {
    check_reverse_order();
}

// ---------------------------------------------------------------------------
// Further cases
// ---------------------------------------------------------------------------

fn chunk(context: Option<&str>, old: &[&str], new: &[&str]) -> UpdateChunk {
    UpdateChunk {
        context: context.map(|c| c.to_string()),
        old_lines: old.iter().map(|s| s.to_string()).collect(),
        new_lines: new.iter().map(|s| s.to_string()).collect(),
        is_end_of_file: false,
    }
}

#[test]
fn update_content_replaces_chunk_and_keeps_newline() {
    let chunks = vec![chunk(Some("fn main() {"), &["    println!(\"old\");"], &["    println!(\"new\");"])];
    let out = update_file_content("fn main() {\n    println!(\"old\");\n}\n", "f.rs", &chunks).unwrap();
    assert_eq!(out, "fn main() {\n    println!(\"new\");\n}\n");
}

#[test]
fn update_content_normalizes_crlf() {
    let chunks = vec![chunk(None, &["b"], &["B"])];
    assert_eq!(update_file_content("a\r\nb\r\nc\r\n", "f", &chunks).unwrap(), "a\nB\nc\n");
}

#[test]
fn missing_context_is_reported() {
    let chunks = vec![chunk(Some("nothing like this"), &["a"], &["b"])];
    assert_eq!(
        update_file_content("a\n", "f.txt", &chunks),
        Err("Failed to find context 'nothing like this' in f.txt".to_string())
    );
}

#[test]
fn missing_lines_are_reported() {
    let chunks = vec![chunk(None, &["x", "y"], &["z"])];
    assert_eq!(
        compute_replacements(&vec!["a".to_string()], "f.txt", &chunks),
        Err("Failed to find expected lines in f.txt:\nx\ny".to_string())
    );
}

#[test]
fn pure_addition_inserts_before_final_empty_line() {
    let lines = vec!["a".to_string(), "".to_string()];
    let reps = compute_replacements(&lines, "f", &vec![chunk(None, &[], &["b"])]).unwrap();
    assert_eq!(reps, vec![(1, 0, vec!["b".to_string()])]);
}

#[test]
fn replacements_are_sorted_by_start() {
    let lines: Vec<String> = ["a", "b", "c"].iter().map(|s| s.to_string()).collect();
    let reps = compute_replacements(&lines, "f", &vec![chunk(None, &["c"], &["C"]), chunk(None, &[], &["d"])]).unwrap();
    assert_eq!(reps, vec![(2, 1, vec!["C".to_string()]), (3, 0, vec!["d".to_string()])]);
}

#[test]
fn seek_prefers_end_of_file_anchor() {
    let lines: Vec<String> = ["x", "y", "x"].iter().map(|s| s.to_string()).collect();
    assert_eq!(seek_sequence(&lines, &vec!["x".to_string()], 0, true), Some(2));
    assert_eq!(seek_sequence(&lines, &vec!["x".to_string()], 0, false), Some(0));
}

#[test]
fn seek_uses_unicode_normalization_last() {
    let lines = vec!["\u{FB01}le".to_string()];
    assert_eq!(seek_sequence(&lines, &vec!["file".to_string()], 0, false), Some(0));
}

#[test]
fn empty_patch_modifies_nothing() {
    assert_eq!(patch_hunks("*** Begin Patch\n*** End Patch").err(), Some("No files were modified.".to_string()));
}

#[test]
fn empty_add_path_is_an_error() {
    assert_eq!(
        parse_patch("*** Begin Patch\n*** Add File:   \n*** End Patch").err(),
        Some("Add File header has empty path".to_string())
    );
}

#[test]
fn summary_lines() {
    let h = Hunk::Update { path: "a".to_string(), move_path: Some("b".to_string()), chunks: vec![] };
    assert_eq!(summary_line(&h), "M b");
    assert_eq!(summary_line(&Hunk::Delete { path: "x".to_string() }), "D x");
    assert_eq!(ApplyPatchTool::new().name(), "apply_patch");
}
