// Concrete cases of the properties proved in the library's laws module.
use bm::{already_bookmarked, decode_html_entities, extract_description_from_html, extract_first_paragraph, format_bookmark_label, add_entry, cmd_list, cmd_remove, decimal_string, is_duplicate, parse_usize, split_lines, App, Key, KeyCode};

#[test]
fn adding_appends_one_line() {
    let content = "# Saved\n- https://a.com - A";
    let before = split_lines(content);
    let after = split_lines(&add_entry("https://b.com", Some("B".into()), content).content);
    assert_eq!(after.len(), before.len() + 1);
    assert_eq!(&after[..before.len()], &before[..]);
    assert_eq!(after[before.len()], "- https://b.com - B");
}

#[test]
fn added_url_is_duplicate() {
    for content in ["", "\r", "# Saved\n"] {
        let added = add_entry("https://new.org", None, content).content;
        assert!(is_duplicate("https://new.org", &split_lines(&added)));
    }
}

#[test]
fn add_then_remove_gives_back_lines() {
    let content = "# Saved\r\n\n- https://a.com - A\n";
    let added = add_entry("https://b.com", Some("B".into()), content).content;
    let removed = cmd_remove("https://b.com", &split_lines(&added)).unwrap();
    assert_eq!(removed.content, "# Saved\n\n- https://a.com - A\n");
    assert_eq!(split_lines(&removed.content), split_lines(content));
}

#[test]
fn remove_by_url_iff_duplicate() {
    let lines = split_lines("- https://a.com - A\n- https://b.com\n");
    for t in ["https://a.com", "https://b.com", "https://c.com", "A"] {
        assert_eq!(cmd_remove(t, &lines).is_ok(), is_duplicate(t, &lines));
    }
}

#[test]
fn remove_by_listed_number() {
    let lines = split_lines("# h\n- https://a.com - A\n\n- https://b.com - B\n");
    let list = cmd_list(&lines);
    assert!(list.contains("  2. https://b.com - B\n"));
    let r = cmd_remove(&decimal_string(2), &lines).unwrap();
    assert_eq!(r.message, "Removed: https://b.com - B");
    assert_eq!(parse_usize(&decimal_string(4096)), Some(4096));
}

#[test]
fn down_then_up_returns() {
    let mut a = App::new("/p".into(), &split_lines("- https://a.com\n- https://b.com\n- https://c.com\n"));
    for start in 0..3 {
        a.handle_key_event(Key { code: KeyCode::Char('g'), ctrl: false });
        for _ in 0..start {
            a.handle_key_event(Key { code: KeyCode::Down, ctrl: false });
        }
        let s = a.selected();
        a.handle_key_event(Key { code: KeyCode::Down, ctrl: false });
        a.handle_key_event(Key { code: KeyCode::Up, ctrl: false });
        assert_eq!(a.selected(), s);
    }
}

#[test]
fn keys_keep_bookmarks_and_selection_in_rows() {
    let lines = split_lines("- https://a.com - Alpha\n- https://b.com - Beta\n- https://c.com\n");
    let mut a = App::new("/p".into(), &lines);
    let codes = [
        KeyCode::Char('/'), KeyCode::Char('b'), KeyCode::Down, KeyCode::Backspace,
        KeyCode::Char('z'), KeyCode::Enter, KeyCode::Char('G'), KeyCode::Char('d'),
        KeyCode::Char('n'), KeyCode::Char('/'), KeyCode::Esc, KeyCode::Char('k'),
        KeyCode::Other, KeyCode::Char('d'), KeyCode::Char('x'),
    ];
    for code in codes {
        a.handle_key_event(Key { code, ctrl: false });
        let rows = a.table_rows();
        if let Some(s) = a.selected() {
            assert!(s < rows.len());
        }
        assert!(a.table_title().ends_with("/3) ") || a.table_title() == " Bookmarks (3) ");
    }
}

#[test]
fn label_begins_with_title() {
    let cases = [
        ("Expo", Some("Expo is an open-source platform")),
        ("GitHub", Some("github | where software is built")),
        ("Same", Some("SAME")),
        ("MyApp", Some("Build amazing things")),
        ("Rust", Some("rust \u{2014} fast")),
        ("Alone", None),
    ];
    for (t, d) in cases {
        let label = format_bookmark_label(Some(t.to_string()), d.map(String::from)).unwrap();
        assert!(label.to_lowercase().starts_with(&t.to_lowercase()), "{} / {}", t, label);
    }
    assert_eq!(format_bookmark_label(None, Some("D".into())), Some("D".into()));
    assert_eq!(format_bookmark_label(None, None), None);
}

#[test]
fn decoding_never_lengthens() {
    for s in ["plain text & more", "&amp;&lt;&gt;", "a &mdash; b", "&amp;lt;", "&#x27;x&#39;"] {
        let d = decode_html_entities(s);
        assert!(d.chars().count() <= s.chars().count());
    }
    assert_eq!(decode_html_entities("plain text & more"), "plain text & more");
    assert_ne!(decode_html_entities("x &quot;y&quot;"), "x &quot;y&quot;");
}

#[test]
fn description_is_first_found() {
    let html = r#"<meta property="og:description" content="  "><meta content="Second" property="og:description"><meta name="description" content="Third">"#;
    assert_eq!(extract_description_from_html(html), Some("Second".into()));
}

#[test]
fn already_bookmarked_message() {
    let lines = split_lines("- https://a.com - A\n");
    assert_eq!(
        already_bookmarked("https://a.com", &lines),
        Some("Already bookmarked: https://a.com".into())
    );
    assert_eq!(already_bookmarked("https://b.com", &lines), None);
}

#[test]
fn decoding_never_lengthens_in_bytes() {
    for s in ["&ndash;", "&mdash;x", "&lt;&gt;&amp;", "&#39;&#x27;&quot;", "\u{4e2d}&amp;"] {
        assert!(decode_html_entities(s).len() <= s.len(), "{}", s);
    }
    assert_eq!(decode_html_entities("&ndash;&mdash;&amp;"), "\u{2013}\u{2014}&");
    assert_eq!(decode_html_entities("&ndash;").len(), 3);
}

#[test]
fn first_paragraph_is_first_kept_line() {
    assert_eq!(extract_first_paragraph("# Title\n\n[link](x)\n![img](y)\nshort line\n"), None);
    let content = "# Title\n   \nshort\n  A line that is long enough to count.  \nAnother line that is long enough.\n";
    assert_eq!(
        extract_first_paragraph(content),
        Some("A line that is long enough to count.".into())
    );
}

#[test]
fn first_paragraph_cut_after_byte_120() {
    let wide = format!("a{}", "\u{4e2d}".repeat(50));
    let cut = extract_first_paragraph(&wide).unwrap();
    assert_eq!(cut, format!("a{}...", "\u{4e2d}".repeat(40)));
    assert_eq!(cut.len() - 3, 121);
    let accents = "\u{e9}".repeat(70);
    assert_eq!(extract_first_paragraph(&accents).unwrap(), format!("{}...", "\u{e9}".repeat(60)));
}

#[test]
fn add_then_remove_gives_back_text() {
    for content in ["# Saved\n- https://a.com - A\n", "x\n", "- https://a.com\n\n# notes\n"] {
        let added = add_entry("https://b.org", Some("B".into()), content).content;
        let removed = cmd_remove("https://b.org", &split_lines(&added)).unwrap();
        assert_eq!(removed.content, content);
    }
}
