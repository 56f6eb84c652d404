use bm::{
    add_entry, bookmark_entries, cmd_list, cmd_remove, cmd_search, extract_url, is_duplicate,
    resolve_path, split_lines, BmError, ResolvedPath,
};

const SAMPLE: &str = "\
# Saved URLs

- https://example.com - Example Domain
- https://rust-lang.org - Rust Programming Language
- https://github.com - GitHub
";

fn sample_lines() -> Vec<String> {
    split_lines(SAMPLE)
}

fn count(hay: &str, needle: &str) -> usize {
    hay.matches(needle).count()
}

// -- extract_url --

#[test]
fn test_extract_url_with_title() {
    assert_eq!(
        extract_url("- https://example.com - Example"),
        "https://example.com"
    );
}

#[test]
fn test_extract_url_bare() {
    assert_eq!(extract_url("- https://bare.com"), "https://bare.com");
}

#[test]
fn test_extract_url_no_prefix() {
    assert_eq!(
        extract_url("https://no-prefix.com - Title"),
        "https://no-prefix.com"
    );
}

#[test]
fn extract_url_of_blank_rest_is_the_rest() {
    assert_eq!(extract_url("-   "), "  ");
    assert_eq!(extract_url("- "), "");
    assert_eq!(extract_url("-x y"), "-x");
    assert_eq!(extract_url("- \tindented\tword"), "indented");
}

// -- bookmark_entries --

#[test]
fn test_bookmark_entries_filters_header() {
    let lines: Vec<String> = SAMPLE.lines().map(String::from).collect();
    let entries = bookmark_entries(&lines);
    assert_eq!(entries.len(), 3);
    assert!(entries[0].1.starts_with("- https://example.com"));
}

#[test]
fn test_bookmark_entries_empty() {
    let lines: Vec<String> = vec!["# Header".into(), "".into()];
    assert_eq!(bookmark_entries(&lines).len(), 0);
}

#[test]
fn bookmark_entries_keep_line_indices() {
    let lines = sample_lines();
    let entries = bookmark_entries(&lines);
    let idx: Vec<usize> = entries.iter().map(|e| e.0).collect();
    assert_eq!(idx, vec![2, 3, 4]);
    assert_eq!(entries[2].1, "- https://github.com - GitHub");
}

// -- split_lines --

#[test]
fn split_lines_matches_str_lines() {
    for s in ["", "\n", "a", "a\n", "a\n\n", "a\r\nb", "a\rb\n", "x\r", "\r\n", "a\n\nb\r\n"] {
        let expected: Vec<String> = s.lines().map(String::from).collect();
        assert_eq!(split_lines(s), expected, "input {:?}", s);
    }
}

// -- resolve_path --

#[test]
fn test_resolve_path_absolute() {
    match resolve_path("/tmp/bookmarks.md", Some("/home/someone".to_string())) {
        ResolvedPath::AsWritten(p) => assert_eq!(p, "/tmp/bookmarks.md"),
        ResolvedPath::UnderHome(..) => panic!("absolute path taken as under home"),
    }
}

#[test]
fn test_resolve_path_tilde() {
    match resolve_path("~/test.md", Some("/home/someone".to_string())) {
        ResolvedPath::UnderHome(home, rest) => {
            let p = std::path::PathBuf::from(home).join(rest);
            assert!(p.to_string_lossy().contains("test.md"));
            assert!(!p.to_string_lossy().starts_with("~"));
        }
        ResolvedPath::AsWritten(_) => panic!("tilde path not resolved"),
    }
}

#[test]
fn resolve_path_without_home_keeps_tilde() {
    match resolve_path("~/test.md", None) {
        ResolvedPath::AsWritten(p) => assert_eq!(p, "~/test.md"),
        ResolvedPath::UnderHome(..) => panic!("no home directory was given"),
    }
}

// -- is_duplicate --

#[test]
fn test_is_duplicate_true() {
    assert!(is_duplicate("https://example.com", &sample_lines()));
}

#[test]
fn test_is_duplicate_false() {
    assert!(!is_duplicate("https://new-site.com", &sample_lines()));
}

// -- add_entry --

#[test]
fn test_add_new_bookmark_with_title() {
    let result = add_entry("https://new.com", Some("New Site".into()), SAMPLE);
    assert!(result.message.contains("Bookmarked:"));
    assert!(result.message.contains("https://new.com"));
    assert!(result.content.contains("- https://new.com - New Site"));
}

#[test]
fn test_add_new_bookmark_no_title() {
    let result = add_entry("https://notitle.com", None, SAMPLE);
    assert!(result.message.contains("Bookmarked:"));
    assert!(result.content.contains("- https://notitle.com\n"));
}

#[test]
fn test_add_duplicate_detected() {
    assert!(is_duplicate("https://example.com", &sample_lines()));
    assert_eq!(count(SAMPLE, "https://example.com"), 1);
}

#[test]
fn test_add_entry_does_not_dedup() {
    let result = add_entry("https://example.com", Some("Dup".into()), SAMPLE);
    assert!(result.message.contains("Bookmarked:"));
    assert_eq!(count(&result.content, "https://example.com"), 2);
}

#[test]
fn add_entry_exact_content_and_message() {
    let r = add_entry("https://a.io", Some("A".into()), "# X");
    assert_eq!(r.content, "# X\n- https://a.io - A\n");
    assert_eq!(r.message, "Bookmarked: https://a.io - A");
    let r = add_entry("https://a.io", None, "# X\n");
    assert_eq!(r.content, "# X\n- https://a.io\n");
    assert_eq!(r.message, "Bookmarked: https://a.io");
    let r = add_entry("https://a.io", None, "");
    assert_eq!(r.content, "\n- https://a.io\n");
}

// -- cmd_list --

#[test]
fn test_list_shows_all() {
    let output = cmd_list(&sample_lines());
    assert!(output.contains("1. https://example.com"));
    assert!(output.contains("2. https://rust-lang.org"));
    assert!(output.contains("3. https://github.com"));
    assert!(output.contains("3 bookmark(s)"));
}

#[test]
fn test_list_empty() {
    let output = cmd_list(&split_lines("# Saved URLs\n"));
    assert_eq!(output, "No bookmarks found.");
}

#[test]
fn list_exact_output() {
    let output = cmd_list(&sample_lines());
    assert_eq!(
        output,
        "  1. https://example.com - Example Domain\n  2. https://rust-lang.org - Rust Programming Language\n  3. https://github.com - GitHub\n\n3 bookmark(s)"
    );
}

// -- cmd_search --

#[test]
fn test_search_found() {
    let output = cmd_search("rust", &sample_lines());
    assert!(output.contains("https://rust-lang.org"));
    assert!(output.contains("1 result(s)"));
}

#[test]
fn test_search_case_insensitive() {
    let output = cmd_search("GITHUB", &sample_lines());
    assert!(output.contains("https://github.com"));
}

#[test]
fn test_search_multiple_results() {
    let content = "\
# Saved URLs

- https://a.com - Rust Book
- https://b.com - Rust By Example
- https://c.com - Python Docs
";
    let output = cmd_search("rust", &split_lines(content));
    assert!(output.contains("2 result(s)"));
}

#[test]
fn test_search_no_match() {
    let output = cmd_search("xyznonexistent", &sample_lines());
    assert!(output.contains("No bookmarks matching"));
}

#[test]
fn search_exact_output() {
    assert_eq!(
        cmd_search("Git", &sample_lines()),
        "  https://github.com - GitHub\n\n1 result(s)"
    );
    assert_eq!(
        cmd_search("Nothing", &sample_lines()),
        "No bookmarks matching \"Nothing\"."
    );
}

// -- cmd_remove --

#[test]
fn test_remove_by_index() {
    let result = cmd_remove("2", &sample_lines()).unwrap();
    assert!(result.message.contains("Removed:"));
    assert!(result.message.contains("rust-lang.org"));
    assert!(!result.content.contains("rust-lang.org"));
    assert!(result.content.contains("example.com"));
    assert!(result.content.contains("github.com"));
}

#[test]
fn test_remove_by_url() {
    let result = cmd_remove("https://github.com", &sample_lines()).unwrap();
    assert!(result.message.contains("Removed:"));
    assert!(!result.content.contains("github.com"));
}

#[test]
fn test_remove_first_entry() {
    let result = cmd_remove("1", &sample_lines()).unwrap();
    assert!(result.message.contains("example.com"));
    assert!(!result.content.contains("example.com"));
    assert!(result.content.contains("rust-lang.org"));
}

#[test]
fn test_remove_last_entry() {
    let result = cmd_remove("3", &sample_lines()).unwrap();
    assert!(result.message.contains("github.com"));
}

#[test]
fn test_remove_index_zero() {
    let result = cmd_remove("0", &sample_lines());
    assert!(result.is_err());
    match result.err().unwrap() {
        BmError::IndexOutOfRange(0, 3) => {}
        other => panic!("Expected IndexOutOfRange(0, 3), got: {}", other.to_string()),
    }
}

#[test]
fn test_remove_index_too_large() {
    let result = cmd_remove("99", &sample_lines());
    assert!(result.is_err());
}

#[test]
fn test_remove_url_not_found() {
    let result = cmd_remove("https://nothere.com", &sample_lines());
    assert!(result.is_err());
    match result.err().unwrap() {
        BmError::BookmarkNotFound(u) => assert_eq!(u, "https://nothere.com"),
        other => panic!("Expected BookmarkNotFound, got: {}", other.to_string()),
    }
}

#[test]
fn remove_exact_content_and_message() {
    let r = cmd_remove("+2", &sample_lines()).unwrap();
    assert_eq!(r.message, "Removed: https://rust-lang.org - Rust Programming Language");
    assert_eq!(
        r.content,
        "# Saved URLs\n\n- https://example.com - Example Domain\n- https://github.com - GitHub\n"
    );
}

#[test]
fn remove_first_of_repeated_urls() {
    let lines = split_lines("- https://a.com - one\n- https://a.com - two\n");
    let r = cmd_remove("https://a.com", &lines).unwrap();
    assert_eq!(r.content, "- https://a.com - two\n");
}

#[test]
fn remove_only_line_leaves_newline() {
    let r = cmd_remove("1", &split_lines("- https://a.com")).unwrap();
    assert_eq!(r.content, "\n");
}

#[test]
fn remove_huge_number_is_looked_up_as_url() {
    let lines = split_lines("- 99999999999999999999999 - big\n");
    let r = cmd_remove("99999999999999999999999", &lines).unwrap();
    assert_eq!(r.message, "Removed: 99999999999999999999999 - big");
}

// -- integration: add then remove preserves file --

#[test]
fn test_add_then_remove_roundtrip() {
    let initial = SAMPLE.to_string();
    let initial_count = count(&initial, "- https://");

    let after_add = add_entry("https://temp.com", Some("Temp".into()), &initial).content;
    assert_eq!(count(&after_add, "- https://"), initial_count + 1);

    let after_remove = cmd_remove("https://temp.com", &split_lines(&after_add))
        .unwrap()
        .content;
    assert_eq!(count(&after_remove, "- https://"), initial_count);
    assert!(!after_remove.contains("temp.com"));
}
