use bm::{decimal_string, parse_usize, BmError};

#[test]
fn test_error_display() {
    let e = BmError::IndexOutOfRange(5, 3);
    assert_eq!(e.to_string(), "Index 5 out of range (1-3).");

    let e = BmError::BookmarkNotFound("https://x.com".into());
    assert_eq!(e.to_string(), "Bookmark not found: https://x.com");
}

#[test]
fn every_error_message() {
    assert_eq!(
        BmError::NoConfig("/c/config.toml".into()).to_string(),
        "No config found. Create /c/config.toml with:\n\n  bookmarks_file = \"/path/to/bookmarks.md\"\n"
    );
    assert_eq!(
        BmError::InvalidConfig("/c.toml".into(), "bad".into()).to_string(),
        "Invalid config /c.toml: bad"
    );
    assert_eq!(
        BmError::FileNotFound("/b.md".into()).to_string(),
        "Bookmarks file not found: /b.md"
    );
    assert_eq!(BmError::IoError("disk full".into()).to_string(), "disk full");
    assert_eq!(
        BmError::IndexOutOfRange(0, 12).to_string(),
        "Index 0 out of range (1-12)."
    );
}

#[test]
fn decimal_formatting() {
    for n in [0usize, 7, 10, 99, 100, 12345, usize::MAX] {
        assert_eq!(decimal_string(n), n.to_string());
    }
}

#[test]
fn parse_matches_std() {
    for s in ["", "+", "-1", "0", "+7", "007", "12a", " 1", "18446744073709551615", "18446744073709551616", "99999999999999999999999", "٣"] {
        assert_eq!(parse_usize(s), s.parse::<usize>().ok(), "input {:?}", s);
    }
}
