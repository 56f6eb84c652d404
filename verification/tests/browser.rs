use bm::{split_lines, App, BmError, Key, KeyCode, Mode, SpanStyle, TuiAction};

const SAMPLE: &str = "\
# Saved URLs

- https://example.com - Example Domain
- https://rust-lang.org - Rust Programming Language
- https://github.com - GitHub
";

fn key(code: KeyCode) -> Key {
    Key { code, ctrl: false }
}

fn app() -> App {
    App::new("/tmp/bm.md".to_string(), &split_lines(SAMPLE))
}

fn type_text(app: &mut App, s: &str) {
    for c in s.chars() {
        app.handle_key_event(key(KeyCode::Char(c)));
    }
}

#[test]
fn new_selects_first_row() {
    let a = app();
    assert_eq!(a.selected(), Some(0));
    assert!(a.mode() == Mode::Normal);
    assert_eq!(a.table_title(), " Bookmarks (3) ");
    assert_eq!(a.bm_path(), "/tmp/bm.md");
    let rows = a.table_rows();
    assert_eq!(rows.len(), 3);
    assert_eq!(rows[0], ("  1".to_string(), "https://example.com".to_string(), "Example Domain".to_string()));
    assert_eq!(rows[2].2, "GitHub");
}

#[test]
fn empty_file_has_no_selection() {
    let a = App::new("/p".to_string(), &split_lines("# Saved URLs\n"));
    assert_eq!(a.selected(), None);
    assert!(a.table_rows().is_empty());
}

#[test]
fn next_and_previous_wrap() {
    let mut a = app();
    a.handle_key_event(key(KeyCode::Char('k')));
    assert_eq!(a.selected(), Some(2));
    a.handle_key_event(key(KeyCode::Down));
    assert_eq!(a.selected(), Some(0));
    a.handle_key_event(key(KeyCode::Char('j')));
    a.handle_key_event(key(KeyCode::Up));
    assert_eq!(a.selected(), Some(0));
    a.handle_key_event(key(KeyCode::Char('G')));
    assert_eq!(a.selected(), Some(2));
    a.handle_key_event(key(KeyCode::Char('g')));
    assert_eq!(a.selected(), Some(0));
}

#[test]
fn search_filters_and_escape_clears() {
    let mut a = app();
    a.handle_key_event(key(KeyCode::Char('/')));
    assert!(a.mode() == Mode::Search);
    type_text(&mut a, "RUST");
    let rows = a.table_rows();
    assert_eq!(rows.len(), 1);
    assert_eq!(rows[0].1, "https://rust-lang.org");
    assert_eq!(a.table_title(), " Bookmarks (1/3) ");
    assert_eq!(
        a.footer_spans(),
        vec![
            (" /".to_string(), SpanStyle::Yellow),
            ("RUST".to_string(), SpanStyle::Plain),
            ("\u{2588}".to_string(), SpanStyle::Yellow),
            ("  ".to_string(), SpanStyle::Plain),
        ]
    );
    a.handle_key_event(key(KeyCode::Backspace));
    assert_eq!(a.table_rows().len(), 1);
    type_text(&mut a, "zzz");
    assert_eq!(a.table_rows().len(), 0);
    assert_eq!(a.selected(), None);
    a.handle_key_event(key(KeyCode::Esc));
    assert!(a.mode() == Mode::Normal);
    assert_eq!(a.table_rows().len(), 3);
    assert_eq!(a.selected(), Some(0));
}

#[test]
fn enter_keeps_filter() {
    let mut a = app();
    a.handle_key_event(key(KeyCode::Char('/')));
    type_text(&mut a, "git");
    a.handle_key_event(key(KeyCode::Enter));
    assert!(a.mode() == Mode::Normal);
    assert_eq!(
        a.footer_spans()[0],
        (" filter: git ".to_string(), SpanStyle::Yellow)
    );
}

#[test]
fn enter_opens_selected() {
    let mut a = app();
    a.handle_key_event(key(KeyCode::Char('j')));
    match a.handle_key_event(key(KeyCode::Enter)) {
        TuiAction::Open(u) => assert_eq!(u, "https://rust-lang.org"),
        _ => panic!("expected Open"),
    }
    assert_eq!(
        a.footer_spans(),
        vec![(" Opened: https://rust-lang.org ".to_string(), SpanStyle::Green)]
    );
}

#[test]
fn normal_footer_shows_hints() {
    let a = app();
    let spans = a.footer_spans();
    assert_eq!(spans.len(), 12);
    assert_eq!(spans[0], (" j/k".to_string(), SpanStyle::Cyan));
    assert_eq!(spans[11], (":quit".to_string(), SpanStyle::Plain));
}

#[test]
fn delete_confirmed_then_finished() {
    let mut a = app();
    a.handle_key_event(key(KeyCode::Char('G')));
    a.handle_key_event(key(KeyCode::Char('d')));
    assert!(a.mode() == Mode::ConfirmDelete);
    assert_eq!(a.footer_spans()[0].0, " Delete https://github.com? (y/n) ");
    let url = match a.handle_key_event(key(KeyCode::Char('y'))) {
        TuiAction::Delete(u) => u,
        _ => panic!("expected Delete"),
    };
    let removal = bm::cmd_remove(&url, &split_lines(SAMPLE)).unwrap();
    a.finish_delete(Ok(removal.message), &split_lines(&removal.content));
    assert!(a.mode() == Mode::Normal);
    assert_eq!(a.table_rows().len(), 2);
    assert_eq!(a.selected(), Some(1));
    assert_eq!(a.footer_spans()[0].0, " Removed: https://github.com - GitHub ");
}

#[test]
fn delete_declined_or_failed() {
    let mut a = app();
    a.handle_key_event(key(KeyCode::Char('d')));
    assert!(matches!(a.handle_key_event(key(KeyCode::Char('n'))), TuiAction::Nothing));
    assert!(a.mode() == Mode::Normal);
    assert_eq!(a.footer_spans().len(), 12);
    a.handle_key_event(key(KeyCode::Char('d')));
    let _ = a.handle_key_event(key(KeyCode::Char('Y')));
    a.finish_delete(Err(BmError::IoError("Failed to write x".into())), &[]);
    assert!(a.mode() == Mode::Normal);
    assert_eq!(a.footer_spans()[0].0, " Error: Failed to write x ");
    assert_eq!(a.table_rows().len(), 3);
}

#[test]
fn quit_keys() {
    let mut a = app();
    assert!(!a.should_quit());
    a.handle_key_event(Key { code: KeyCode::Char('c'), ctrl: true });
    assert!(a.should_quit());
    let mut b = app();
    b.handle_key_event(key(KeyCode::Char('/')));
    b.handle_key_event(key(KeyCode::Char('q')));
    assert!(!b.should_quit());
    b.handle_key_event(key(KeyCode::Esc));
    b.handle_key_event(key(KeyCode::Char('q')));
    assert!(b.should_quit());
}

#[test]
fn reload_clamps_selection() {
    let mut a = app();
    a.handle_key_event(key(KeyCode::Char('G')));
    a.reload(&split_lines("- https://one.com\n"));
    assert_eq!(a.selected(), Some(0));
    assert_eq!(a.table_rows()[0].2, "");
}
