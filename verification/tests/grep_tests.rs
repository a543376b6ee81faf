use common_tools::error::ToolError;
use common_tools::grep::ContextLines;
use common_tools::grep::FileSize;
use common_tools::grep::FileType;
use common_tools::grep::GrepTool;
use common_tools::grep::LineNumber;
use common_tools::grep::SearchConfiguration;

fn request(regex: &str, case_sensitive: bool, offset: u32) -> GrepTool {
    GrepTool {
        regex: regex.to_string(),
        include_pattern: None,
        offset,
        case_sensitive,
        working_directory: None,
    }
}

#[test]
fn test_grep_basic_search() {
    let tool = request("Hello", false, 0);
    let config = SearchConfiguration::new(&tool).unwrap();
    let rust_matches = tool.find_matches_in_content(
        "test1.rs",
        "fn main() {\n    println!(\"Hello, world!\");\n}\n",
        &config,
    );
    let python_matches = tool.find_matches_in_content(
        "test2.py",
        "def main():\n    print(\"Hello from Python\")\n",
        &config,
    );
    assert_eq!(rust_matches.len(), 1);
    assert_eq!(python_matches.len(), 1);
    let mut all = rust_matches;
    all.extend(python_matches);
    let output = tool.format_results(all.as_slice());
    assert!(output.contains("Hello, world!"));
    assert!(output.contains("Hello from Python"));
    assert!(output.contains("test1.rs"));
    assert!(output.contains("test2.py"));
}

#[test]
fn test_grep_case_sensitive() {
    let content = "This file has UPPERCASE and lowercase text.\nUPPERCASE patterns should match.\n";
    let insensitive = request("uppercase", false, 0);
    let config = SearchConfiguration::new(&insensitive).unwrap();
    let found = insensitive.find_matches_in_content("case_test.txt", content, &config);
    assert_eq!(found.len(), 2);
    assert!(insensitive.format_results(found.as_slice()).contains("UPPERCASE"));

    let sensitive = request("uppercase", true, 0);
    let config = SearchConfiguration::new(&sensitive).unwrap();
    let found = sensitive.find_matches_in_content("case_test.txt", content, &config);
    assert_eq!(found.len(), 0);
    assert_eq!(sensitive.format_results(found.as_slice()), "No matches found");
}

#[test]
fn test_grep_no_matches() {
    let tool = request("nonexistent", false, 0);
    let config = SearchConfiguration::new(&tool).unwrap();
    let found =
        tool.find_matches_in_content("test.txt", "This file contains no special patterns", &config);
    assert_eq!(tool.format_results(found.as_slice()), "No matches found");
}

#[test]
fn test_grep_invalid_regex() {
    let tool = request("[invalid", false, 0);
    let result = SearchConfiguration::new(&tool);
    match result {
        Err(ToolError::InvalidArgument(msg)) => {
            assert!(msg.starts_with("Regex compilation failed: "));
        }
        _ => panic!("expected an invalid-argument failure"),
    }
}

#[test]
fn test_grep_invalid_glob() {
    let tool = GrepTool {
        regex: "x".to_string(),
        include_pattern: Some("a**b[".to_string()),
        offset: 0,
        case_sensitive: false,
        working_directory: None,
    };
    let result = SearchConfiguration::new(&tool);
    match result {
        Err(ToolError::InvalidArgument(msg)) => {
            assert!(msg.starts_with("Invalid glob pattern: "));
        }
        _ => panic!("expected an invalid-argument failure"),
    }
}

#[test]
fn test_grep_context_lines() {
    let content = "Line 1\nLine 2\nLine 3 with match\nLine 4\nLine 5\nLine 6\nLine 7\n";
    let tool = request("with match", false, 0);
    let config = SearchConfiguration::new(&tool).unwrap();
    let found = tool.find_matches_in_content("context_test.txt", content, &config);
    assert_eq!(found.len(), 1);
    assert_eq!(found[0].match_line.value(), 2);
    assert_eq!(found[0].context.start_line, 0);
    assert_eq!(found[0].context.end_line, 4);
    let output = tool.format_results(found.as_slice());
    assert!(output.contains("L3 (context: 1-5)"));
    assert!(output.contains("Line 1"));
    assert!(output.contains("Line 2"));
    assert!(output.contains("Line 3 with match"));
    assert!(output.contains("Line 4"));
    assert!(output.contains("Line 5"));
    assert!(!output.contains("Line 6"));
}

#[test]
fn test_grep_pagination() {
    // 25 matching lines; the first page shows 20 of them and names the next
    // offset, and the call repeated at that offset reports the total alone.
    let mut content = String::new();
    for i in 0..25 {
        content.push_str(&format!("line {} with search pattern\n", i));
    }
    let first_call = request("search pattern", false, 0);
    let config = SearchConfiguration::new(&first_call).unwrap();
    let found = first_call.find_matches_in_content("file.txt", &content, &config);
    assert_eq!(found.len(), 25);
    let first_page = first_call.format_results(found.as_slice());
    assert!(first_page.contains("Results 1-20"));
    assert!(first_page.contains("use offset: 20"));

    let second_call = request("search pattern", false, 20);
    let second_page = second_call.format_results(found.as_slice());
    assert!(second_page.contains("Found 25 total matches"));
}

#[test]
fn test_grep_pages_do_not_overlap_and_cover_all() {
    let mut content = String::new();
    for i in 0..25 {
        content.push_str(&format!("entry {} hit\n", i));
    }
    let tool = request("hit", false, 0);
    let config = SearchConfiguration::new(&tool).unwrap();
    let found = tool.find_matches_in_content("f.txt", &content, &config);
    let page0 = tool.paginate_matches(found.as_slice());
    assert_eq!(page0.len(), 20);
    let tool20 = request("hit", false, 20);
    let page1 = tool20.paginate_matches(found.as_slice());
    assert_eq!(page1.len(), 5);
    // No overlap, no gap, same global order.
    for (k, m) in page0.iter().chain(page1.iter()).enumerate() {
        assert_eq!(m.match_line.value(), k);
    }
    // An offset beyond the matches yields an empty page, not an error.
    let beyond = request("hit", false, 100);
    assert_eq!(beyond.paginate_matches(found.as_slice()).len(), 0);
}

#[test]
fn test_grep_include_pattern() {
    let tool = GrepTool {
        regex: "Hello".to_string(),
        include_pattern: Some("**/*.rs".to_string()),
        offset: 0,
        case_sensitive: false,
        working_directory: None,
    };
    let config = SearchConfiguration::new(&tool).unwrap();
    assert!(config.matches_file_filter("src/main.rs"));
    assert!(config.matches_file_filter("tests/test.rs"));
    assert!(!config.matches_file_filter("README.md"));
    assert!(tool.should_search_file(&config, true, "src/main.rs", "/root/src/main.rs"));
    assert!(!tool.should_search_file(&config, true, "README.md", "/root/README.md"));
    assert!(!tool.should_search_file(&config, false, "src/main.rs", "/root/src/main.rs"));
}

#[test]
fn test_grep_long_lines_are_skipped() {
    let mut content = String::new();
    content.push_str("short needle\n");
    let long_line = "x".repeat(10_001) + " needle\n";
    content.push_str(&long_line);
    let tool = request("needle", false, 0);
    let config = SearchConfiguration::new(&tool).unwrap();
    let found = tool.find_matches_in_content("f.txt", &content, &config);
    assert_eq!(found.len(), 1);
    assert_eq!(found[0].match_line.value(), 0);
}

#[test]
fn test_text_file_classification_by_path() {
    assert!(FileType::is_likely_text_file("src/main.rs"));
    assert!(FileType::has_text_extension("a/b/notes.txt"));
    assert!(FileType::is_likely_text_file("Dockerfile"));
    assert!(FileType::is_special_file("deep/path/.gitignore"));
    assert!(FileType::is_likely_text_file(".env"));
    assert!(!FileType::is_likely_text_file("archive.zip"));
    assert!(!FileType::is_likely_text_file("binary"));
    assert!(!FileType::has_text_extension(".gitignore"));
    assert!(!FileType::has_text_extension("noext"));
}

#[test]
fn test_content_sniff() {
    assert!(FileType::is_likely_utf8_text(""));
    assert!(FileType::is_likely_utf8_text("plain text\nwith\tlines\r\n"));
    // Four characters, three of them NUL: each NUL weighs twice (as a NUL
    // and as a control character), far past the three-tenths threshold.
    assert!(!FileType::is_likely_utf8_text("\0\0\0a"));
    // One control character in ten: under the threshold.
    assert!(FileType::is_likely_utf8_text("abcdefghi\u{1}"));
}

#[test]
fn test_line_number_and_size_helpers() {
    let n = LineNumber(4);
    assert_eq!(n.value(), 4);
    assert_eq!(n.display(), 5);
    assert!(!FileSize(10 * 1024 * 1024).exceeds_limit());
    assert!(FileSize(10 * 1024 * 1024 + 1).exceeds_limit());
    let ctx = ContextLines(2);
    assert_eq!(ctx.start_from(LineNumber(0)), 0);
    assert_eq!(ctx.start_from(LineNumber(5)), 3);
    assert_eq!(ctx.end_at(LineNumber(5), 100), 7);
    assert_eq!(ctx.end_at(LineNumber(5), 6), 5);
}

#[test]
fn test_grep_exact_rendering() {
    let tool = request("match", false, 0);
    let config = SearchConfiguration::new(&tool).unwrap();
    let found = tool.find_matches_in_content("f.txt", "only line match", &config);
    let output = tool.format_results(found.as_slice());
    assert_eq!(
        output,
        "Found 1 total matches:\n## File: f.txt\n\n### L1 (context: 1-1)\n```\nonly line match\n```\n\n"
    );
}

#[test]
fn test_grep_groups_output_by_file() {
    let tool = request("x", false, 0);
    let config = SearchConfiguration::new(&tool).unwrap();
    let mut all = tool.find_matches_in_content("a.txt", "x1\nx2", &config);
    all.extend(tool.find_matches_in_content("b.txt", "x3", &config));
    let output = tool.format_results(all.as_slice());
    // One header per file, not one per match.
    assert_eq!(output.matches("## File: a.txt").count(), 1);
    assert_eq!(output.matches("## File: b.txt").count(), 1);
    assert!(output.contains("Found 3 total matches"));
}
