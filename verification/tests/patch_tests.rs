use common_tools::apply_patch::apply_patch_to_content;
use common_tools::apply_patch::apply_unified_diff;
use common_tools::apply_patch::parse_decimal;
use common_tools::apply_patch::parse_unified_diff;
use common_tools::apply_patch::ApplyPatchTool;
use common_tools::error::ToolError;
use common_tools::text::split_into_lines;

#[test]
fn test_apply_patch_tool() {
    let content = "line1\nline2\nline3";
    let patch = "@@ -1,3 +1,3 @@\n line1\n-line2\n+modified line2\n line3";
    let result = apply_patch_to_content(content, patch);
    let new_content = result.unwrap();
    assert_eq!(new_content, "line1\nmodified line2\nline3");
    assert!(new_content.contains("modified line2"));
    let message = ApplyPatchTool::success_message("patch_test.txt");
    assert!(message.contains("Successfully applied patch"));
}

#[test]
fn test_patch_preserves_trailing_newline() {
    let content = "line1\nline2\nline3\n";
    let patch = "@@ -1,3 +1,3 @@\n line1\n-line2\n+changed\n line3";
    let result = apply_patch_to_content(content, patch).unwrap();
    assert_eq!(result, "line1\nchanged\nline3\n");
}

#[test]
fn test_patch_crlf_normalization() {
    let content = "line1\nline2";
    let patch = "@@ -1,2 +1,2 @@\r\n line1\r\n-line2\r\n+two";
    let result = apply_patch_to_content(content, patch).unwrap();
    assert_eq!(result, "line1\ntwo");
}

#[test]
fn test_patch_whitespace_tolerant_context() {
    // The expected context has collapsed spacing; the file has extra runs.
    let content = "fn  main()   {\n    body\n}";
    let patch = "@@ -1,3 +1,3 @@\n fn main() {\n-    body\n+    new body\n }";
    let result = apply_patch_to_content(content, patch).unwrap();
    assert_eq!(result, "fn main() {\n    new body\n}");
}

#[test]
fn test_patch_atomic_on_second_hunk_mismatch() {
    // Two hunks; the second one's context does not match the document, so
    // the whole apply is rejected and no new content is produced at all.
    let content = "a\nb\nc\nd\ne\nf";
    let patch = "@@ -1,2 +1,2 @@\n a\n-b\n+B\n@@ -5,2 +5,2 @@\n WRONG\n-f\n+F";
    let lines = split_into_lines(content);
    assert!(apply_unified_diff(&lines, patch).is_none());
    let result = apply_patch_to_content(content, patch);
    match result {
        Err(ToolError::Other(msg)) => {
            assert_eq!(msg, "Failed to apply patch - hunks did not match");
        }
        _ => panic!("expected the whole patch to be rejected"),
    }
}

#[test]
fn test_patch_two_hunks_apply_high_to_low() {
    let content = "a\nb\nc\nd\ne\nf";
    let patch = "@@ -1,2 +1,2 @@\n a\n-b\n+B\n@@ -5,2 +5,2 @@\n e\n-f\n+F";
    let result = apply_patch_to_content(content, patch).unwrap();
    assert_eq!(result, "a\nB\nc\nd\ne\nF");
}

#[test]
fn test_patch_rederived_hunk_reapplies() {
    // Idempotence against the stated result: re-derive the hunk from the new
    // content against the original (original slice as context/removals, new
    // slice as additions) and apply it to the original again.
    let content = "one\ntwo\nthree";
    let patch = "@@ -2,1 +2,1 @@\n-two\n+TWO";
    let first = apply_patch_to_content(content, patch).unwrap();
    assert_eq!(first, "one\nTWO\nthree");
    let rederived = "@@ -2,1 +2,1 @@\n-two\n+TWO";
    let second = apply_patch_to_content(content, rederived).unwrap();
    assert_eq!(first, second);
}

#[test]
fn test_patch_empty_or_hunkless_is_rejected() {
    assert!(apply_patch_to_content("x", "").is_err());
    assert!(apply_patch_to_content("x", "no hunks here\njust text").is_err());
}

#[test]
fn test_patch_malformed_range_number_is_rejected() {
    let lines = split_into_lines("a\nb");
    assert!(parse_unified_diff(&split_into_lines("@@ -x,1 +1,1 @@\n a")).is_none());
    assert!(apply_unified_diff(&lines, "@@ -x,1 +1,1 @@\n a").is_none());
}

#[test]
fn test_patch_count_defaults_to_one() {
    let content = "a\nb";
    let patch = "@@ -2 +2 @@\n-b\n+B";
    let result = apply_patch_to_content(content, patch).unwrap();
    assert_eq!(result, "a\nB");
}

#[test]
fn test_patch_out_of_bounds_hunk_is_rejected() {
    let content = "a\nb";
    assert!(apply_patch_to_content(content, "@@ -0,1 +1,1 @@\n a").is_err());
    assert!(apply_patch_to_content(content, "@@ -4,1 +4,1 @@\n a").is_err());
    assert!(apply_patch_to_content(content, "@@ -2,5 +2,5 @@\n b\n b\n b\n b\n b").is_err());
}

#[test]
fn test_patch_insertion_hunk() {
    let content = "a\nb";
    let patch = "@@ -2,1 +2,2 @@\n-b\n+b\n+c";
    let result = apply_patch_to_content(content, patch).unwrap();
    assert_eq!(result, "a\nb\nc");
}

#[test]
fn test_patch_no_newline_marker_is_ignored() {
    let content = "a\nb";
    let patch = "@@ -2,1 +2,1 @@\n-b\n+B\n\\ No newline at end of file";
    let result = apply_patch_to_content(content, patch).unwrap();
    assert_eq!(result, "a\nB");
}

#[test]
fn test_parse_decimal_values() {
    assert_eq!(parse_decimal("0"), Some(0));
    assert_eq!(parse_decimal("42"), Some(42));
    assert_eq!(parse_decimal("+7"), Some(7));
    assert_eq!(parse_decimal(""), None);
    assert_eq!(parse_decimal("+"), None);
    assert_eq!(parse_decimal("12a"), None);
    assert_eq!(parse_decimal("-3"), None);
    assert_eq!(parse_decimal("99999999999999999999999999"), None);
}

#[test]
fn test_parse_unified_diff_collects_hunks() {
    let lines = split_into_lines(
        "garbage before\n@@ -1,2 +1,3 @@\n a\n-b\n+B\n+C\nterminator\n@@ -9,1 +10,1 @@\n z",
    );
    let hunks = parse_unified_diff(&lines).unwrap();
    assert_eq!(hunks.len(), 2);
    assert_eq!(hunks[0].old_start, 1);
    assert_eq!(hunks[0].old_count, 2);
    assert_eq!(hunks[0].new_start, 1);
    assert_eq!(hunks[0].new_count, 3);
    assert_eq!(hunks[0].context_and_removed, vec!["a".to_string(), "b".to_string()]);
    assert_eq!(hunks[0].new_lines, vec!["a".to_string(), "B".to_string(), "C".to_string()]);
    assert_eq!(hunks[1].old_start, 9);
    assert_eq!(hunks[1].new_start, 10);
}

#[test]
fn test_parse_unified_diff_blank_line_counts_for_both_sides() {
    let lines = split_into_lines("@@ -1,2 +1,2 @@\n a\n\n");
    let hunks = parse_unified_diff(&lines).unwrap();
    assert_eq!(hunks.len(), 1);
    assert_eq!(hunks[0].context_and_removed, vec!["a".to_string(), String::new()]);
    assert_eq!(hunks[0].new_lines, vec!["a".to_string(), String::new()]);
}
