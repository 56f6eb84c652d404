use bm::{
    clean_x_title, decode_html_entities, description_from_captures,
    extract_description_from_html, extract_first_paragraph, extract_metadata_from_html,
    extract_title_from_html, fetch_step, format_bookmark_label, is_x_url, label_from_html,
    label_from_reader, label_from_reader_response, title_from_capture, try_format_bookmark_label,
    uppercase_first, FetchAction, FetchEvent,
};

// -- extract_title_from_html --

#[test]
fn test_extract_title_basic() {
    let html = "<html><head><title>Hello World</title></head></html>";
    assert_eq!(extract_title_from_html(html), Some("Hello World".into()));
}

#[test]
fn test_extract_title_with_entities() {
    let html = "<title>Foo &amp; Bar &ndash; Baz</title>";
    assert_eq!(
        extract_title_from_html(html),
        Some("Foo & Bar \u{2013} Baz".into())
    );
}

#[test]
fn test_extract_title_multiline() {
    let html = "<title>\n  Multi\n  Line\n</title>";
    assert_eq!(extract_title_from_html(html), Some("Multi\n  Line".into()));
}

#[test]
fn test_extract_title_empty() {
    let html = "<title>  </title>";
    assert_eq!(extract_title_from_html(html), None);
}

#[test]
fn test_extract_title_missing() {
    let html = "<html><body>No title here</body></html>";
    assert_eq!(extract_title_from_html(html), None);
}

#[test]
fn test_extract_title_case_insensitive() {
    let html = "<TITLE>Upper Case</TITLE>";
    assert_eq!(extract_title_from_html(html), Some("Upper Case".into()));
}

#[test]
fn test_extract_title_with_attributes() {
    let html = "<title lang=\"en\">With Attrs</title>";
    assert_eq!(extract_title_from_html(html), Some("With Attrs".into()));
}

#[test]
fn title_from_capture_outcomes() {
    assert_eq!(title_from_capture(None), None);
    assert_eq!(title_from_capture(Some(None)), None);
    assert_eq!(title_from_capture(Some(Some(" a &lt;b&gt; ".into()))), Some("a <b>".into()));
    assert_eq!(title_from_capture(Some(Some(" \n ".into()))), None);
}

// -- extract_description_from_html --

#[test]
fn test_extract_description_meta() {
    let html = r#"<html><head><meta name="description" content="A great site about Rust"></head></html>"#;
    assert_eq!(
        extract_description_from_html(html),
        Some("A great site about Rust".into())
    );
}

#[test]
fn test_extract_description_og() {
    let html = r#"<meta property="og:description" content="OG description here">"#;
    assert_eq!(
        extract_description_from_html(html),
        Some("OG description here".into())
    );
}

#[test]
fn test_extract_description_og_preferred_over_meta() {
    let html = r#"<meta property="og:description" content="OG wins"><meta name="description" content="Meta loses">"#;
    assert_eq!(extract_description_from_html(html), Some("OG wins".into()));
}

#[test]
fn test_extract_description_content_before_name() {
    let html = r#"<meta content="Reversed order" name="description">"#;
    assert_eq!(
        extract_description_from_html(html),
        Some("Reversed order".into())
    );
}

#[test]
fn test_extract_description_content_before_og() {
    let html = r#"<meta content="Reversed OG" property="og:description">"#;
    assert_eq!(extract_description_from_html(html), Some("Reversed OG".into()));
}

#[test]
fn test_extract_description_empty() {
    let html = r#"<meta name="description" content="">"#;
    assert_eq!(extract_description_from_html(html), None);
}

#[test]
fn test_extract_description_missing() {
    let html = "<html><head><title>No desc</title></head></html>";
    assert_eq!(extract_description_from_html(html), None);
}

#[test]
fn test_extract_description_with_entities() {
    let html = r#"<meta name="description" content="Foo &amp; Bar &ndash; Baz">"#;
    assert_eq!(
        extract_description_from_html(html),
        Some("Foo & Bar \u{2013} Baz".into())
    );
}

#[test]
fn description_from_captures_order() {
    assert_eq!(
        description_from_captures(Some(Some("  ".into())), Some(None), Some(Some("m".into())), None),
        Some("m".into())
    );
    assert_eq!(
        description_from_captures(Some(None), None, Some(Some("m".into())), None),
        None
    );
    assert_eq!(description_from_captures(Some(None), Some(None), Some(None), Some(None)), None);
}

// -- format_bookmark_label --

#[test]
fn test_format_label_title_and_description() {
    let result = format_bookmark_label(Some("Expo".into()), Some("Build cross-platform apps".into()));
    assert_eq!(result, Some("Expo: Build cross-platform apps".into()));
}

#[test]
fn test_format_label_title_only() {
    let result = format_bookmark_label(Some("Expo".into()), None);
    assert_eq!(result, Some("Expo".into()));
}

#[test]
fn test_format_label_description_only() {
    let result = format_bookmark_label(None, Some("A great site".into()));
    assert_eq!(result, Some("A great site".into()));
}

#[test]
fn test_format_label_neither() {
    let result = format_bookmark_label(None, None);
    assert_eq!(result, None);
}

#[test]
fn test_format_label_description_has_title_prefix_separator() {
    let result = format_bookmark_label(
        Some("GitHub".into()),
        Some("GitHub: Where people build software".into()),
    );
    assert_eq!(result, Some("GitHub: Where people build software".into()));
}

#[test]
fn test_format_label_description_starts_with_title_is() {
    let result = format_bookmark_label(
        Some("Expo".into()),
        Some("Expo is an open-source platform".into()),
    );
    assert_eq!(result, Some("Expo: An open-source platform".into()));
}

#[test]
fn test_format_label_no_special_prefix() {
    let result = format_bookmark_label(
        Some("MyApp".into()),
        Some("Build amazing things".into()),
    );
    assert_eq!(result, Some("MyApp: Build amazing things".into()));
}

#[test]
fn test_format_label_identical() {
    let result = format_bookmark_label(Some("Same".into()), Some("Same".into()));
    assert_eq!(result, Some("Same".into()));
}

#[test]
fn format_label_em_dash_and_case() {
    assert_eq!(
        format_bookmark_label(Some("Foo".into()), Some("foo \u{2014} the bar".into())),
        Some("Foo: The bar".into())
    );
    assert_eq!(
        format_bookmark_label(Some("Foo".into()), Some("FOO IS big".into())),
        Some("Foo: IS big".into())
    );
    assert_eq!(
        format_bookmark_label(Some("Same".into()), Some("SAME".into())),
        Some("Same".into())
    );
}

#[test]
fn try_format_label_where_title_bytes_split_a_char() {
    // "İ" lowercases to "i̇" (three bytes) while it takes two bytes itself,
    // so its byte length falls inside the description's combining dot.
    assert_eq!(
        try_format_bookmark_label(Some("\u{130}".into()), Some("i\u{307} is x".into())),
        None
    );
    assert_eq!(
        try_format_bookmark_label(Some("Expo".into()), Some("Expo is fun".into())),
        Some(Some("Expo: Fun".into()))
    );
}

#[test]
fn uppercase_first_cases() {
    assert_eq!(uppercase_first(""), "");
    assert_eq!(uppercase_first("abc"), "Abc");
    assert_eq!(uppercase_first("ßx"), "SSx");
}

// -- extract_metadata_from_html --

#[test]
fn test_extract_metadata_full() {
    let html = r#"<html><head><title>My Site</title><meta name="description" content="Best site ever"></head></html>"#;
    let meta = extract_metadata_from_html(html);
    assert_eq!(meta.title, Some("My Site".into()));
    assert_eq!(meta.description, Some("Best site ever".into()));
}

#[test]
fn test_extract_metadata_title_only() {
    let html = "<html><head><title>Just Title</title></head></html>";
    let meta = extract_metadata_from_html(html);
    assert_eq!(meta.title, Some("Just Title".into()));
    assert_eq!(meta.description, None);
}

// -- decode_html_entities --

#[test]
fn test_decode_all_entities() {
    let s = "&amp; &lt; &gt; &#39; &quot; &#x27; &ndash; &mdash;";
    assert_eq!(decode_html_entities(s), "& < > ' \" ' \u{2013} \u{2014}");
}

#[test]
fn decode_is_sequential() {
    assert_eq!(decode_html_entities("&amp;lt;"), "<");
    assert_eq!(decode_html_entities("&&amp;;"), "&&;");
    assert_eq!(decode_html_entities("plain"), "plain");
}

// -- is_x_url --

#[test]
fn test_is_x_url_https() {
    assert!(is_x_url("https://x.com/user/status/123"));
    assert!(is_x_url("https://twitter.com/user/status/123"));
}

#[test]
fn test_is_x_url_www() {
    assert!(is_x_url("https://www.x.com/user/status/123"));
    assert!(is_x_url("https://www.twitter.com/user/status/123"));
}

#[test]
fn test_is_x_url_http() {
    assert!(is_x_url("http://x.com/user/status/123"));
    assert!(is_x_url("http://twitter.com/user/status/123"));
}

#[test]
fn test_is_x_url_false() {
    assert!(!is_x_url("https://example.com"));
    assert!(!is_x_url("https://github.com"));
    assert!(!is_x_url("https://notx.com/path"));
    assert!(!is_x_url("https://xtwitter.com/path"));
}

#[test]
fn test_is_x_url_case_insensitive() {
    assert!(is_x_url("https://X.COM/user/status/123"));
    assert!(is_x_url("HTTPS://x.com/user/status/123"));
    assert!(is_x_url("https://Twitter.com/user/status/456"));
}

#[test]
fn test_is_x_url_article_path() {
    assert!(is_x_url("https://x.com/yq_acc/article/2037579506429657198"));
}

#[test]
fn test_is_x_url_edge_cases() {
    assert!(!is_x_url("https://x.com"));
    assert!(!is_x_url(""));
    assert!(!is_x_url("x.com/user/status/123"));
}

// -- clean_x_title --

#[test]
fn test_clean_x_title_with_suffix() {
    assert_eq!(
        clean_x_title("YQ on X: \"Agents Don't Click Ads.\" / X"),
        Some("YQ on X: \"Agents Don't Click Ads.\"".into())
    );
}

#[test]
fn test_clean_x_title_twitter_suffix() {
    assert_eq!(
        clean_x_title("User on X: \"Hello\" / Twitter"),
        Some("User on X: \"Hello\"".into())
    );
}

#[test]
fn test_clean_x_title_generic() {
    assert_eq!(clean_x_title("X"), None);
    assert_eq!(clean_x_title("Twitter"), None);
    assert_eq!(clean_x_title(""), None);
}

#[test]
fn test_clean_x_title_no_suffix() {
    assert_eq!(
        clean_x_title("YQ on X: \"Some text\""),
        Some("YQ on X: \"Some text\"".into())
    );
}

#[test]
fn test_clean_x_title_whitespace() {
    assert_eq!(
        clean_x_title("  User on X: \"Hello\" / X  "),
        Some("User on X: \"Hello\"".into())
    );
    assert_eq!(clean_x_title("   "), None);
}

// -- extract_first_paragraph --

#[test]
fn test_extract_first_paragraph_skips_images() {
    let content = "[![Image 1](https://img.png)](https://link)\n\nThe quick brown fox jumps over the lazy dog.";
    assert_eq!(
        extract_first_paragraph(content),
        Some("The quick brown fox jumps over the lazy dog.".into())
    );
}

#[test]
fn test_extract_first_paragraph_skips_headers() {
    let content = "# Title\n\n## Subtitle\n\nThis is the first real paragraph of content here.";
    assert_eq!(
        extract_first_paragraph(content),
        Some("This is the first real paragraph of content here.".into())
    );
}

#[test]
fn test_extract_first_paragraph_truncates() {
    let long = "A".repeat(200);
    let result = extract_first_paragraph(&long).unwrap();
    assert!(result.len() < 130);
    assert!(result.ends_with("..."));
}

#[test]
fn extract_first_paragraph_cut_point() {
    let long = "A".repeat(200);
    assert_eq!(extract_first_paragraph(&long).unwrap(), format!("{}...", "A".repeat(120)));
    let exact = "B".repeat(120);
    assert_eq!(extract_first_paragraph(&exact).unwrap(), exact);
}

#[test]
fn test_extract_first_paragraph_empty() {
    assert_eq!(extract_first_paragraph(""), None);
    assert_eq!(extract_first_paragraph("# Only header"), None);
}

#[test]
fn test_extract_first_paragraph_skips_links() {
    let content = "[Log in](https://x.com/login)\n[Sign up](https://x.com/signup)\n\nThis is meaningful text after some links.";
    assert_eq!(
        extract_first_paragraph(content),
        Some("This is meaningful text after some links.".into())
    );
}

#[test]
fn test_extract_first_paragraph_skips_inline_images() {
    let content = "![Image 1: alt text](https://img.png)\n\nThe actual paragraph starts here with real text.";
    assert_eq!(
        extract_first_paragraph(content),
        Some("The actual paragraph starts here with real text.".into())
    );
}

#[test]
fn test_extract_first_paragraph_skips_short_lines() {
    let content = "OK\nNot enough\nShort line here!!!\n\nThis line is long enough to be a real paragraph for the reader.";
    assert_eq!(
        extract_first_paragraph(content),
        Some("This line is long enough to be a real paragraph for the reader.".into())
    );
}

#[test]
fn test_extract_first_paragraph_unicode_truncation() {
    let content = "这是一段很长的中文内容，用来测试Unicode字符的截断功能。我们需要确保截断不会发生在多字节字符的中间位置，否则会导致无效的UTF-8字符串。这段文字应该足够长以触发截断逻辑。";
    let result = extract_first_paragraph(content).unwrap();
    assert!(result.ends_with("..."));
    assert!(result.is_char_boundary(result.len()));
}

#[test]
fn test_extract_first_paragraph_trims_whitespace() {
    let content = "   \n   \n   The first real paragraph with leading spaces.   ";
    assert_eq!(
        extract_first_paragraph(content),
        Some("The first real paragraph with leading spaces.".into())
    );
}

#[test]
fn test_extract_first_paragraph_realistic_jina_x_output() {
    let content = r#"[![Image 1: Image](https://pbs.twimg.com/media/abc.jpg)](https://x.com/user/article/123/media/456)

The internet's business model is advertising. For thirty years, that has been the default: show humans content, harvest attention, convert clicks into revenue.

AI agents break this model. An agent calling an API does not have attention to harvest."#;
    let result = extract_first_paragraph(content).unwrap();
    assert!(result.starts_with("The internet's business model is advertising."));
    assert!(result.ends_with("..."));
}

#[test]
fn test_extract_first_paragraph_only_non_text() {
    let content = "# Header\n## Subheader\n[![img](url)](link)\n![alt](url)\n[link](url)\nshort";
    assert_eq!(extract_first_paragraph(content), None);
}

// -- labels from pages and from the reader --

#[test]
fn label_from_html_cases() {
    assert_eq!(
        label_from_html("<title>Expo</title><meta name=\"description\" content=\"Expo is neat\">"),
        Some(Some("Expo: Neat".into()))
    );
    assert_eq!(label_from_html("<p>nothing</p>"), Some(None));
}

#[test]
fn label_from_reader_cases() {
    assert_eq!(
        label_from_reader("https://x.com/a/status/1", "Someone on X: \"hi\" / X", "", ""),
        Some(Some("Someone on X: \"hi\"".into()))
    );
    assert_eq!(
        label_from_reader("https://x.com/a/status/1", "X", " ", "short\nA paragraph that is long enough to count."),
        Some(Some("A paragraph that is long enough to count.".into()))
    );
    assert_eq!(
        label_from_reader("https://e.com", "  T  ", "  D  ", ""),
        Some(Some("T: D".into()))
    );
}

#[test]
fn label_from_reader_response_cases() {
    let body = br#"{"code":200,"data":{"title":"Rust","description":"A language","content":"x"}}"#;
    assert_eq!(
        label_from_reader_response("https://rust-lang.org", body),
        Some(Some("Rust: A language".into()))
    );
    assert_eq!(label_from_reader_response("https://e.com", b"not json"), Some(None));
    assert_eq!(label_from_reader_response("https://e.com", br#"{"x":1}"#), Some(None));
    let only_content = br#"{"data":{"title":7,"content":"This content line is certainly long enough."}}"#;
    assert_eq!(
        label_from_reader_response("https://e.com", only_content),
        Some(Some("This content line is certainly long enough.".into()))
    );
}

fn done(a: FetchAction) -> Option<String> {
    match a {
        FetchAction::Done(l) => l,
        _ => panic!("expected Done"),
    }
}

#[test]
fn fetch_steps() {
    assert!(matches!(fetch_step("https://x.com/u/status/1", FetchEvent::Start), FetchAction::AskReader(true)));
    assert!(matches!(fetch_step("https://e.com", FetchEvent::Start), FetchAction::GetPage));
    assert_eq!(done(fetch_step("https://e.com", FetchEvent::PageFetched(None))), None);
    assert_eq!(
        done(fetch_step("https://e.com", FetchEvent::PageFetched(Some("<title>E</title>".into())))),
        Some("E".into())
    );
    assert!(matches!(
        fetch_step("https://e.com", FetchEvent::PageFetched(Some("<p></p>".into()))),
        FetchAction::AskReader(false)
    ));
    assert_eq!(done(fetch_step("https://e.com", FetchEvent::ReaderFetched(None))), None);
    assert_eq!(
        done(fetch_step(
            "https://e.com",
            FetchEvent::ReaderFetched(Some(br#"{"data":{"title":"R"}}"#.to_vec()))
        )),
        Some("R".into())
    );
    assert!(matches!(
        fetch_step(
            "https://e.com",
            FetchEvent::PageFetched(Some("<title>\u{130}</title><meta name=\"description\" content=\"i\u{307} is x\">".into()))
        ),
        FetchAction::LabelUndefined
    ));
}
