use common_tools::error::ToolError;
use common_tools::search_replace_edit::apply_all_edits;
use common_tools::search_replace_edit::apply_edit;
use common_tools::search_replace_edit::extract_indentation;
use common_tools::search_replace_edit::fuzzy_search_replace;
use common_tools::search_replace_edit::normalize_whitespace;
use common_tools::search_replace_edit::EditError;
use common_tools::search_replace_edit::EditOperation;
use common_tools::search_replace_edit::SearchReplaceEditTool;

#[test]
fn test_search_replace_edit_tool() {
    let content = "Hello world\nThis is a test\nGoodbye world";
    let edits = vec![EditOperation { search: "Hello".to_string(), replace: "Hi".to_string() }];
    let result = apply_all_edits(content, &edits).unwrap();
    assert_eq!(result, "Hi world\nThis is a test\nGoodbye world");
    let message = SearchReplaceEditTool::success_message(edits.len(), "edit_test.txt");
    assert!(message.contains("Successfully applied"));
    assert!(message.contains("1 edits"));
}

#[test]
fn test_edit_end_to_end_content() {
    let edits = vec![EditOperation {
        search: "Original".to_string(),
        replace: "Modified".to_string(),
    }];
    let result = apply_all_edits("Original content", &edits).unwrap();
    assert_eq!(result, "Modified content");
    let message = SearchReplaceEditTool::success_message(1, "workflow_test.txt");
    assert_eq!(message, "Successfully applied 1 edits to workflow_test.txt");
}

#[test]
fn test_exact_match_replaces_first_occurrence_only() {
    let edit = EditOperation { search: "world".to_string(), replace: "WORLD".to_string() };
    let result = apply_edit("world one world two", &edit).unwrap();
    assert_eq!(result, "WORLD one world two");
}

#[test]
fn test_edits_apply_in_order_each_on_previous_output() {
    let edits = vec![
        EditOperation { search: "a".to_string(), replace: "b".to_string() },
        EditOperation { search: "bb".to_string(), replace: "c".to_string() },
    ];
    let result = apply_all_edits("ab", &edits).unwrap();
    assert_eq!(result, "c");
}

#[test]
fn test_fuzzy_single_match_reindents_replacement() {
    // The search text differs in spacing; the matched block's leading
    // whitespace is applied to the first replacement line and to every later
    // non-blank one, while blank lines stay as they are.
    let content = "start\n    old   line\nend";
    let result = fuzzy_search_replace(content, "old line", "new line\n\nlast line").unwrap();
    assert_eq!(result, "start\n    new line\n\n    last line\nend");
}

#[test]
fn test_fuzzy_multi_line_window() {
    let content = "fn demo() {\n    alpha;\n    beta;\n}";
    let result = fuzzy_search_replace(content, "alpha;\nbeta;", "gamma;").unwrap();
    assert_eq!(result, "fn demo() {\n    gamma;\n}");
}

#[test]
fn test_fuzzy_zero_matches_is_not_found() {
    let result = fuzzy_search_replace("alpha\nbeta", "gamma", "delta");
    assert!(matches!(result, Err(EditError::NotFound)));
    let msg = EditError::NotFound.message();
    assert_eq!(
        msg,
        "Search text not found in file. Please verify the text exists and check for typos."
    );
}

#[test]
fn test_fuzzy_two_matches_is_ambiguous() {
    let content = "    target\nmiddle\n  target";
    let result = fuzzy_search_replace(content, "target", "x");
    match result {
        Err(EditError::Ambiguous(n)) => {
            assert_eq!(n, 2);
            assert_eq!(EditError::Ambiguous(n).message(), "Ambiguous: found 2 potential matches");
        }
        _ => panic!("expected an ambiguous failure"),
    }
}

#[test]
fn test_failed_edit_reports_one_based_index_and_aborts() {
    let edits = vec![
        EditOperation { search: "alpha".to_string(), replace: "a".to_string() },
        EditOperation { search: "missing".to_string(), replace: "x".to_string() },
    ];
    let result = apply_all_edits("alpha beta", &edits);
    match result {
        Err(ToolError::Other(msg)) => {
            assert!(msg.starts_with("Edit 2 failed: "));
            assert!(msg.contains("Search text not found in file"));
        }
        _ => panic!("expected the second edit to fail"),
    }
}

#[test]
fn test_ambiguous_edit_message_through_sequence() {
    let edits = vec![EditOperation { search: "dup".to_string(), replace: "x".to_string() }];
    // No exact occurrence of "dup " ... use spacing so only fuzzy matching
    // applies, twice.
    let edits2 = vec![EditOperation { search: " dup".to_string(), replace: "x".to_string() }];
    let result = apply_all_edits("du p\ndu p", &edits);
    assert!(result.is_err());
    let result2 = apply_all_edits("dup\ndup", &edits2);
    match result2 {
        Err(ToolError::Other(msg)) => {
            assert_eq!(msg, "Edit 1 failed: Ambiguous: found 2 potential matches");
        }
        _ => panic!("expected an ambiguous failure"),
    }
}

#[test]
fn test_empty_edit_list_returns_content_unchanged() {
    let edits: Vec<EditOperation> = Vec::new();
    let result = apply_all_edits("unchanged", &edits).unwrap();
    assert_eq!(result, "unchanged");
}

#[test]
fn test_normalize_whitespace_exact() {
    assert_eq!(normalize_whitespace("  a \t b  "), "a b");
    assert_eq!(normalize_whitespace(""), "");
    assert_eq!(normalize_whitespace(" \t "), "");
    assert_eq!(normalize_whitespace("one two"), "one two");
    assert_eq!(normalize_whitespace("a\nb"), "a b");
}

#[test]
fn test_extract_indentation_exact() {
    assert_eq!(extract_indentation("    code"), "    ");
    assert_eq!(extract_indentation("\t\tcode"), "\t\t");
    assert_eq!(extract_indentation("code"), "");
    assert_eq!(extract_indentation("   "), "   ");
}

#[test]
fn test_delete_with_empty_replacement() {
    let edit = EditOperation { search: " world".to_string(), replace: String::new() };
    let result = apply_edit("hello world", &edit).unwrap();
    assert_eq!(result, "hello");
}
