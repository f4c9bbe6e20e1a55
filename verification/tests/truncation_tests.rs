use tools::truncation::{
    needs_truncation, truncate_output, truncate_output_directed, TruncationDirection, MAX_BYTES,
    MAX_LINES,
};

fn numbered_lines(n: usize) -> String {
    let lines: Vec<String> = (0..n).map(|i| format!("line {i}")).collect();
    lines.join("\n")
}

#[test]
fn test_truncate_within_limits() {
    let text = "line1\nline2\nline3\n";
    let result = truncate_output(text, MAX_LINES, MAX_BYTES, None);
    assert!(!result.truncated);
    assert_eq!(result.content, text);
    assert_eq!(result.original_lines, 3);
}

#[test]
fn test_truncate_exceeds_line_limit() {
    let text = numbered_lines(3000);
    let result = truncate_output(&text, 2000, MAX_BYTES, None);
    assert!(result.truncated);
    assert_eq!(result.original_lines, 3000);
    let output_lines: Vec<&str> = result.content.lines().collect();
    assert!(output_lines.len() <= 2003);
}

#[test]
fn test_truncate_exceeds_byte_limit() {
    let big_line = "x".repeat(1000);
    let lines: Vec<&str> = std::iter::repeat(big_line.as_str()).take(100).collect();
    let text = lines.join("\n");
    let result = truncate_output(&text, MAX_LINES, MAX_BYTES, None);
    assert!(result.truncated);
    assert!(result.original_bytes > MAX_BYTES);
}

#[test]
fn test_truncate_notice_included() {
    let text = numbered_lines(3000);
    let result = truncate_output(&text, 2000, MAX_BYTES, None);
    assert!(result.truncated);
    assert!(result.content.contains("truncated."));
}

#[test]
fn test_truncate_tail_direction() {
    let text = numbered_lines(100);
    let result = truncate_output_directed(&text, 10, MAX_BYTES, TruncationDirection::Tail, None);
    assert!(result.truncated);
    assert!(result.content.contains("line 99"));
    assert!(result.content.contains("line 90"));
    assert!(!result.content.contains("line 0\n"));
}

#[test]
fn test_truncate_hint_includes_path() {
    let text = numbered_lines(3000);
    let result = truncate_output(&text, 2000, MAX_BYTES, Some("/tmp/bridge_tool_output/x.txt"));
    assert!(result.truncated);
    assert!(result.content.contains("Full output saved to:"));
    assert!(result.content.contains("Use Grep to search or Read"));
}

#[test]
fn truncate_head_exact_notice() {
    let text = "a\nbb\nccc\ndddd";
    let result = truncate_output(text, 2, MAX_BYTES, None);
    assert!(result.truncated);
    assert_eq!(result.original_lines, 4);
    assert_eq!(result.original_bytes, 13);
    assert_eq!(
        result.content,
        "a\nbb\n\n... [2 lines, 8 bytes truncated. Use grep/read with offset to see full content] ..."
    );
}

#[test]
fn truncate_tail_exact_notice() {
    let text = "a\nbb\nccc\ndddd";
    let result = truncate_output_directed(text, 2, MAX_BYTES, TruncationDirection::Tail, None);
    assert!(result.truncated);
    assert_eq!(
        result.content,
        "... [2 lines, 4 bytes truncated. Use grep/read with offset to see full content] ...\n\nccc\ndddd"
    );
}

#[test]
fn truncate_by_bytes_keeps_whole_lines() {
    let text = "aaaa\nbbbb\ncccc";
    let result = truncate_output(text, MAX_LINES, 11, None);
    assert!(result.truncated);
    assert!(result.content.starts_with("aaaa\nbbbb\n\n... [1 lines, 4 bytes truncated."));
}

#[test]
fn needs_truncation_matches_limits() {
    assert!(!needs_truncation("a\nb", 2, 10));
    assert!(needs_truncation("a\nb\nc", 2, 10));
    assert!(needs_truncation("abcdefghijk", 2, 10));
    assert!(!needs_truncation("", 0, 0));
}

#[test]
fn default_direction_is_head() {
    assert!(TruncationDirection::default() == TruncationDirection::Head);
}
