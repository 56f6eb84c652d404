//! The interactive browser's state: the bookmarks read from the file, the
//! ones that the search query lets through, the selected row, the mode, and
//! how each key changes them; also the text of the table and the footer.
//! Drawing, reading keys, opening URLs and writing the file happen outside.

use vstd::prelude::*;

use crate::bookmarks::{
    bookmark_entries, entry_indices, extract_url, lemma_entry_indices, strip_marker,
    title_separator, url_of,
};
use crate::error::BmError;
use crate::text::{
    chars_of, contains_seq, decimal, has_infix, has_prefix, lowercase, pop_char, push_all,
    push_decimal, push_text, starts_with, string_of, string_push, subvec, to_lower, views,
};

verus! {

// ---------------------------------------------------------------------------
// Bookmarks as the browser shows them
// ---------------------------------------------------------------------------

/// One bookmark: its URL, its label, and the index of its line in the file.
pub struct Bookmark {
    pub url: String,
    pub label: String,
    pub line_idx: usize,
}

impl View for Bookmark {
    type V = (Seq<char>, Seq<char>, int);

    open spec fn view(&self) -> (Seq<char>, Seq<char>, int) {
        (self.url@, self.label@, self.line_idx as int)
    }
}

/// The label of a bookmark line: what follows its URL and " - ", or nothing.
pub open spec fn line_label(line: Seq<char>) -> Seq<char> {
    let stripped = strip_marker(line);
    let url = url_of(line);
    if has_prefix(stripped, url) && has_prefix(stripped.skip(url.len() as int), title_separator()) {
        stripped.skip(url.len() + 3int)
    } else {
        seq![]
    }
}

/// The bookmarks of the file whose lines are `ls`, in order.
pub open spec fn parsed_bookmarks(ls: Seq<Seq<char>>) -> Seq<(Seq<char>, Seq<char>, int)> {
    entry_indices(ls).map_values(|i: int| (url_of(ls[i]), line_label(ls[i]), i))
}

/// The bookmark is shown for the lowercase query `q`: the query is empty, or
/// the lowercase URL or label contains it.
pub open spec fn shows(b: (Seq<char>, Seq<char>, int), q: Seq<char>) -> bool {
    q.len() == 0 || has_infix(lowercase(b.0), q) || has_infix(lowercase(b.1), q)
}

/// The positions among `bs` of the bookmarks shown for the lowercase query
/// `q`, in order.
pub open spec fn filter_indices(bs: Seq<(Seq<char>, Seq<char>, int)>, q: Seq<char>) -> Seq<int>
    decreases bs.len(),
{
    if bs.len() == 0 {
        seq![]
    } else if shows(bs.last(), q) {
        filter_indices(bs.drop_last(), q).push(bs.len() - 1)
    } else {
        filter_indices(bs.drop_last(), q)
    }
}

/// A selection kept within `n` rows: none when there are no rows, the last
/// row when it was past the end.
pub open spec fn clamp(sel: Option<int>, n: nat) -> Option<int> {
    if n == 0 {
        None
    } else {
        match sel {
            None => None,
            Some(s) => if s >= n {
                Some(n - 1)
            } else {
                Some(s)
            },
        }
    }
}

/// The row after `sel` among `n` rows, wrapping to the first.
pub open spec fn next_row(sel: Option<int>, n: nat) -> Option<int> {
    if n == 0 {
        sel
    } else {
        match sel {
            Some(i) => if i >= n - 1 {
                Some(0)
            } else {
                Some(i + 1)
            },
            None => Some(0),
        }
    }
}

/// The row before `sel` among `n` rows, wrapping to the last.
pub open spec fn previous_row(sel: Option<int>, n: nat) -> Option<int> {
    if n == 0 {
        sel
    } else {
        match sel {
            Some(i) => if i == 0 {
                Some(n - 1)
            } else {
                Some(i - 1)
            },
            None => Some(0),
        }
    }
}

/// The first row, when there is one; otherwise `sel`.
pub open spec fn first_row(sel: Option<int>, n: nat) -> Option<int> {
    if n == 0 {
        sel
    } else {
        Some(0)
    }
}

pub proof fn lemma_filter_indices(bs: Seq<(Seq<char>, Seq<char>, int)>, q: Seq<char>)
    ensures
        filter_indices(bs, q).len() <= bs.len(),
        forall|k: int|
            0 <= k < filter_indices(bs, q).len() ==> 0 <= #[trigger] filter_indices(bs, q)[k]
                < bs.len() && shows(bs[filter_indices(bs, q)[k]], q),
        forall|k: int, j: int|
            0 <= k < j < filter_indices(bs, q).len() ==> #[trigger] filter_indices(bs, q)[k]
                < #[trigger] filter_indices(bs, q)[j],
    decreases bs.len(),
{
    if bs.len() > 0 {
        lemma_filter_indices(bs.drop_last(), q);
    }
}

// ---------------------------------------------------------------------------
// The browser's state
// ---------------------------------------------------------------------------

/// What the browser is doing.
#[derive(Clone, Copy, PartialEq, Eq, Structural)]
pub enum Mode {
    Normal,
    Search,
    ConfirmDelete,
}

/// A key as the browser reads it.
#[derive(Clone, Copy, PartialEq, Eq, Structural)]
pub enum KeyCode {
    Char(char),
    Up,
    Down,
    Enter,
    Esc,
    Backspace,
    Other,
}

/// A key press, with whether Control was held.
#[derive(Clone, Copy, PartialEq, Eq, Structural)]
pub struct Key {
    pub code: KeyCode,
    pub ctrl: bool,
}

/// What the browser asks to be done outside after a key.
pub enum TuiAction {
    Nothing,
    /// Open this URL.
    Open(String),
    /// Remove the bookmark with this URL from the file, then report with
    /// `App::finish_delete`.
    Delete(String),
}

/// The abstract state of the browser.
pub struct AppView {
    pub path: Seq<char>,
    pub bookmarks: Seq<(Seq<char>, Seq<char>, int)>,
    pub filtered: Seq<int>,
    pub selected: Option<int>,
    pub mode: Mode,
    pub query: Seq<char>,
    pub quit: bool,
    pub status: Seq<char>,
}

/// The shown rows are the bookmarks that the query lets through, and the
/// selection, if any, is one of them.
pub open spec fn consistent(v: AppView) -> bool {
    &&& v.filtered == filter_indices(v.bookmarks, lowercase(v.query))
    &&& (v.selected matches Some(s) ==> 0 <= s < v.filtered.len())
}


/// The selected bookmark, if any.
pub open spec fn selected_of(v: AppView) -> Option<(Seq<char>, Seq<char>, int)> {
    match v.selected {
        Some(s) => Some(v.bookmarks[v.filtered[s]]),
        None => None,
    }
}

/// The state with `query` as the search query: the rows filtered again and
/// the first row selected when there is one.
pub open spec fn requeried(v: AppView, query: Seq<char>) -> AppView {
    let f = filter_indices(v.bookmarks, lowercase(query));
    AppView {
        query: query,
        filtered: f,
        selected: if f.len() > 0 {
            Some(0int)
        } else {
            None
        },
        ..v
    }
}

/// The state after `code` in normal mode.
pub open spec fn after_normal_key(v: AppView, code: KeyCode) -> AppView {
    let n = v.filtered.len();
    match code {
        KeyCode::Char('q') => AppView { quit: true, ..v },
        KeyCode::Char('j') | KeyCode::Down => AppView { selected: next_row(v.selected, n), ..v },
        KeyCode::Char('k') | KeyCode::Up => AppView { selected: previous_row(v.selected, n), ..v },
        KeyCode::Enter => match selected_of(v) {
            Some(b) => AppView { status: "Opened: "@ + b.0, ..v },
            None => v,
        },
        KeyCode::Char('/') => AppView { mode: Mode::Search, status: seq![], ..v },
        KeyCode::Char('d') => match selected_of(v) {
            Some(b) => AppView {
                mode: Mode::ConfirmDelete,
                status: "Delete "@ + b.0 + "? (y/n)"@,
                ..v
            },
            None => v,
        },
        KeyCode::Char('g') => AppView { selected: first_row(v.selected, n), ..v },
        KeyCode::Char('G') => AppView {
            selected: if n > 0 {
                Some(n - 1)
            } else {
                v.selected
            },
            ..v
        },
        _ => v,
    }
}

/// The state after `code` in search mode.
pub open spec fn after_search_key(v: AppView, code: KeyCode) -> AppView {
    match code {
        KeyCode::Esc => AppView { mode: Mode::Normal, ..requeried(v, seq![]) },
        KeyCode::Enter => AppView { mode: Mode::Normal, ..v },
        KeyCode::Backspace => requeried(
            v,
            if v.query.len() > 0 {
                v.query.drop_last()
            } else {
                v.query
            },
        ),
        KeyCode::Char(c) => requeried(v, v.query.push(c)),
        _ => v,
    }
}

/// The key confirms a deletion.
pub open spec fn is_yes(code: KeyCode) -> bool {
    code == KeyCode::Char('y') || code == KeyCode::Char('Y')
}

/// The state after `code` while a deletion waits for confirmation (a
/// confirmed deletion with a selected bookmark goes on in `finish_delete`).
pub open spec fn after_confirm_key(v: AppView, code: KeyCode) -> AppView {
    if is_yes(code) {
        if selected_of(v) is Some {
            v
        } else {
            AppView { mode: Mode::Normal, ..v }
        }
    } else {
        AppView { mode: Mode::Normal, status: seq![], ..v }
    }
}

/// The key is Control-C.
pub open spec fn is_interrupt(key: Key) -> bool {
    key.ctrl && key.code == KeyCode::Char('c')
}

/// The state after `key`.
pub open spec fn after_key(v: AppView, key: Key) -> AppView {
    if is_interrupt(key) {
        AppView { quit: true, ..v }
    } else {
        match v.mode {
            Mode::Normal => after_normal_key(v, key.code),
            Mode::Search => after_search_key(v, key.code),
            Mode::ConfirmDelete => after_confirm_key(v, key.code),
        }
    }
}

/// The URL that `key` asks to open or to delete, if any.
pub open spec fn key_request(v: AppView, key: Key) -> Option<Seq<char>> {
    if is_interrupt(key) {
        None
    } else {
        match (v.mode, key.code) {
            (Mode::Normal, KeyCode::Enter) => match selected_of(v) {
                Some(b) => Some(b.0),
                None => None,
            },
            (Mode::ConfirmDelete, code) => if is_yes(code) {
                match selected_of(v) {
                    Some(b) => Some(b.0),
                    None => None,
                }
            } else {
                None
            },
            _ => None,
        }
    }
}

/// `action` asks for what `key` requests: to open the URL in normal mode, to
/// delete it while confirming, nothing otherwise.
pub open spec fn action_matches(v: AppView, key: Key, action: TuiAction) -> bool {
    match key_request(v, key) {
        None => action is Nothing,
        Some(u) => if v.mode == Mode::Normal {
            action matches TuiAction::Open(x) && x@ == u
        } else {
            action matches TuiAction::Delete(x) && x@ == u
        },
    }
}


// ---------------------------------------------------------------------------
// What the table and the footer show
// ---------------------------------------------------------------------------

/// The colour of a piece of the footer.
#[derive(Clone, Copy, PartialEq, Eq, Structural, Debug)]
pub enum SpanStyle {
    Plain,
    Yellow,
    Green,
    Cyan,
}

/// The table's title: the number of bookmarks, and of shown rows when a
/// query is set.
pub open spec fn title_text(v: AppView) -> Seq<char> {
    if v.query.len() == 0 {
        " Bookmarks ("@ + decimal(v.bookmarks.len()) + ") "@
    } else {
        " Bookmarks ("@ + decimal(v.filtered.len()) + "/"@ + decimal(v.bookmarks.len()) + ") "@
    }
}

/// `s` right-aligned in three columns.
pub open spec fn padded3(s: Seq<char>) -> Seq<char> {
    if s.len() >= 3 {
        s
    } else {
        Seq::new((3 - s.len()) as nat, |i: int| ' ') + s
    }
}

/// Row `k` of the table: its 1-based number, the URL and the label of the
/// bookmark shown there.
pub open spec fn table_row(v: AppView, k: int) -> (Seq<char>, Seq<char>, Seq<char>) {
    let b = v.bookmarks[v.filtered[k]];
    (padded3(decimal((k + 1) as nat)), b.0, b.1)
}

/// The key hints shown in normal mode when there is no status.
pub open spec fn hints() -> Seq<(Seq<char>, SpanStyle)> {
    seq![
        (" j/k"@, SpanStyle::Cyan),
        (":nav "@, SpanStyle::Plain),
        ("Enter"@, SpanStyle::Cyan),
        (":open "@, SpanStyle::Plain),
        ("/"@, SpanStyle::Cyan),
        (":search "@, SpanStyle::Plain),
        ("d"@, SpanStyle::Cyan),
        (":del "@, SpanStyle::Plain),
        ("g/G"@, SpanStyle::Cyan),
        (":top/bottom "@, SpanStyle::Plain),
        ("q"@, SpanStyle::Cyan),
        (":quit"@, SpanStyle::Plain),
    ]
}

/// The footer: the query being typed or the filter in force, the status,
/// and the key hints in normal mode when there is no status.
pub open spec fn footer(v: AppView) -> Seq<(Seq<char>, SpanStyle)> {
    let query_part = if v.mode == Mode::Search {
        seq![
            (" /"@, SpanStyle::Yellow),
            (v.query, SpanStyle::Plain),
            ("\u{2588}"@, SpanStyle::Yellow),
            ("  "@, SpanStyle::Plain),
        ]
    } else if v.query.len() > 0 {
        seq![(" filter: "@ + v.query + " "@, SpanStyle::Yellow)]
    } else {
        seq![]
    };
    let status_part = if v.status.len() > 0 {
        seq![(" "@ + v.status + " "@, SpanStyle::Green)]
    } else {
        seq![]
    };
    let hint_part = if v.mode == Mode::Normal && v.status.len() == 0 {
        hints()
    } else {
        seq![]
    };
    query_part + status_part + hint_part
}

/// The views of the footer's pieces.
pub open spec fn spans_view(v: Seq<(String, SpanStyle)>) -> Seq<(Seq<char>, SpanStyle)> {
    v.map_values(|p: (String, SpanStyle)| (p.0@, p.1))
}

fn push_span(spans: &mut Vec<(String, SpanStyle)>, text: &str, style: SpanStyle)
    ensures
        spans_view(final(spans)@) == spans_view(old(spans)@).push((text@, style)),
{
    let mut t: Vec<char> = Vec::new();
    push_text(&mut t, text);
    spans.push((string_of(&t), style));
    assert(spans_view(spans@) =~= spans_view(old(spans)@).push((text@, style)));
}

/// The interactive browser's state.
pub struct App {
    bm_path: String,
    bookmarks: Vec<Bookmark>,
    filtered: Vec<usize>,
    selected: Option<usize>,
    mode: Mode,
    search_query: String,
    should_quit: bool,
    status_msg: String,
}

pub open spec fn opt_int(o: Option<usize>) -> Option<int> {
    match o {
        Some(i) => Some(i as int),
        None => None,
    }
}

impl View for App {
    type V = AppView;

    closed spec fn view(&self) -> AppView {
        AppView {
            path: self.bm_path@,
            bookmarks: self.bookmarks@.map_values(|b: Bookmark| b@),
            filtered: self.filtered@.map_values(|i: usize| i as int),
            selected: opt_int(self.selected),
            mode: self.mode,
            query: self.search_query@,
            quit: self.should_quit,
            status: self.status_msg@,
        }
    }
}

impl App {
    /// The state is consistent.
    pub open spec fn wf(&self) -> bool {
        consistent(self@)
    }

    proof fn lemma_wf(&self)
        requires
            self.wf(),
        ensures
            self.filtered@.len() == self@.filtered.len(),
            self.bookmarks@.len() == self@.bookmarks.len(),
            forall|k: int|
                0 <= k < self.filtered@.len() ==> 0 <= #[trigger] self.filtered@[k]
                    < self.bookmarks@.len(),
    {
        lemma_filter_indices(self@.bookmarks, lowercase(self@.query));
        assert forall|k: int| 0 <= k < self.filtered@.len() implies 0 <= #[trigger] self.filtered@[k]
            < self.bookmarks@.len() by {
            assert(self@.filtered[k] == self.filtered@[k] as int);
        }
    }

    /// Builds the browser for the bookmarks file at `bm_path` whose lines are
    /// `lines`, with the first bookmark selected.
    pub fn new(bm_path: String, lines: &[String]) -> (app: App)
        ensures
            app.wf(),
            app@.path == bm_path@,
            app@.bookmarks == parsed_bookmarks(views(lines@)),
            app@.filtered == filter_indices(app@.bookmarks, lowercase(seq![])),
            app@.selected == (if app@.filtered.len() > 0 {
                Some(0int)
            } else {
                None
            }),
            app@.mode == Mode::Normal,
            app@.query == Seq::<char>::empty(),
            !app@.quit,
            app@.status == Seq::<char>::empty(),
    {
        let mut app = App {
            bm_path,
            bookmarks: Vec::new(),
            filtered: Vec::new(),
            selected: None,
            mode: Mode::Normal,
            search_query: String::new(),
            should_quit: false,
            status_msg: String::new(),
        };
        app.reload(lines);
        if app.filtered.len() > 0 {
            app.selected = Some(0);
        }
        app
    }

    /// Reads the bookmarks again from the file's lines and filters them.
    pub fn reload(&mut self, lines: &[String])
        ensures
            final(self).wf(),
            final(self)@ == (AppView {
                bookmarks: parsed_bookmarks(views(lines@)),
                filtered: filter_indices(parsed_bookmarks(views(lines@)), lowercase(old(self)@.query)),
                selected: clamp(
                    old(self)@.selected,
                    filter_indices(parsed_bookmarks(views(lines@)), lowercase(old(self)@.query)).len(),
                ),
                ..old(self)@
            }),
    {
        self.bookmarks = parse_bookmarks(lines);
        self.apply_filter();
    }

    /// Filters the bookmarks by the query and keeps the selection within the
    /// shown rows.
    fn apply_filter(&mut self)
        ensures
            final(self).wf(),
            final(self)@ == (AppView {
                filtered: filter_indices(old(self)@.bookmarks, lowercase(old(self)@.query)),
                selected: clamp(
                    old(self)@.selected,
                    filter_indices(old(self)@.bookmarks, lowercase(old(self)@.query)).len(),
                ),
                ..old(self)@
            }),
    {
        let q = chars_of(to_lower(self.search_query.as_str()).as_str());
        let ghost bs = self@.bookmarks;
        let mut filtered: Vec<usize> = Vec::new();
        let mut i: usize = 0;
        while i < self.bookmarks.len()
            invariant
                i <= self.bookmarks@.len(),
                bs == self.bookmarks@.map_values(|b: Bookmark| b@),
                q@ == lowercase(self.search_query@),
                filtered@.map_values(|k: usize| k as int) == filter_indices(bs.take(i as int), q@),
            decreases self.bookmarks.len() - i,
        {
            assert(bs.take(i + 1).drop_last() =~= bs.take(i as int));
            assert(bs.take(i + 1).last() == self.bookmarks@[i as int]@);
            let b = &self.bookmarks[i];
            let show = if q.len() == 0 {
                true
            } else {
                let lu = chars_of(to_lower(b.url.as_str()).as_str());
                let ll = chars_of(to_lower(b.label.as_str()).as_str());
                contains_seq(&lu, &q) || contains_seq(&ll, &q)
            };
            if show {
                let ghost before = filtered@;
                filtered.push(i);
                assert(filtered@.map_values(|k: usize| k as int) =~= before.map_values(
                    |k: usize| k as int,
                ).push(i as int));
            }
            i += 1;
        }
        assert(bs.take(i as int) =~= bs);
        self.filtered = filtered;
        if self.filtered.len() == 0 {
            self.selected = None;
        } else {
            let sel = match self.selected {
                Some(s) => s,
                None => 0,
            };
            if sel >= self.filtered.len() {
                self.selected = Some(self.filtered.len() - 1);
            }
        }
        assert(self@.filtered =~= filter_indices(bs, lowercase(self@.query)));
    }

    /// The selected bookmark, if any.
    pub fn selected_bookmark(&self) -> (r: Option<&Bookmark>)
        requires
            self.wf(),
        ensures
            match selected_of(self@) {
                Some(b) => r matches Some(x) && x@ == b,
                None => r is None,
            },
    {
        proof {
            self.lemma_wf();
        }
        match self.selected {
            Some(i) => {
                if i < self.filtered.len() {
                    let idx = self.filtered[i];
                    assert(self@.filtered[i as int] == idx as int);
                    assert(self@.bookmarks[idx as int] == self.bookmarks@[idx as int]@);
                    Some(&self.bookmarks[idx])
                } else {
                    None
                }
            },
            None => None,
        }
    }

    /// Selects the next row, wrapping to the first.
    pub fn next(&mut self)
        requires
            old(self).wf(),
        ensures
            final(self).wf(),
            final(self)@ == (AppView {
                selected: next_row(old(self)@.selected, old(self)@.filtered.len()),
                ..old(self)@
            }),
    {
        proof {
            self.lemma_wf();
        }
        if self.filtered.len() == 0 {
            return;
        }
        let i = match self.selected {
            Some(i) => if i >= self.filtered.len() - 1 {
                0
            } else {
                i + 1
            },
            None => 0,
        };
        self.selected = Some(i);
    }

    /// Selects the previous row, wrapping to the last.
    pub fn previous(&mut self)
        requires
            old(self).wf(),
        ensures
            final(self).wf(),
            final(self)@ == (AppView {
                selected: previous_row(old(self)@.selected, old(self)@.filtered.len()),
                ..old(self)@
            }),
    {
        proof {
            self.lemma_wf();
        }
        if self.filtered.len() == 0 {
            return;
        }
        let i = match self.selected {
            Some(i) => if i == 0 {
                self.filtered.len() - 1
            } else {
                i - 1
            },
            None => 0,
        };
        self.selected = Some(i);
    }

    /// The URL of the selected bookmark, to be opened, after noting it in the
    /// status line.
    pub fn open_selected(&mut self) -> (r: Option<String>)
        requires
            old(self).wf(),
        ensures
            final(self).wf(),
            final(self)@ == after_normal_key(old(self)@, KeyCode::Enter),
            match selected_of(old(self)@) {
                Some(b) => r matches Some(u) && u@ == b.0,
                None => r is None,
            },
    {
        let url = match self.selected_bookmark() {
            Some(bm) => {
                let mut u: Vec<char> = Vec::new();
                push_text(&mut u, bm.url.as_str());
                string_of(&u)
            },
            None => {
                return None;
            },
        };
        let mut msg: Vec<char> = Vec::new();
        push_text(&mut msg, "Opened: ");
        push_text(&mut msg, url.as_str());
        self.status_msg = string_of(&msg);
        Some(url)
    }

    /// Handles a key in normal mode.
    pub fn handle_normal_key(&mut self, code: KeyCode) -> (r: TuiAction)
        requires
            old(self).wf(),
        ensures
            final(self).wf(),
            final(self)@ == after_normal_key(old(self)@, code),
            match code {
                KeyCode::Enter => match selected_of(old(self)@) {
                    Some(b) => r matches TuiAction::Open(u) && u@ == b.0,
                    None => r is Nothing,
                },
                _ => r is Nothing,
            },
    {
        proof {
            self.lemma_wf();
        }
        match code {
            KeyCode::Char('q') => {
                self.should_quit = true;
            },
            KeyCode::Char('j') | KeyCode::Down => self.next(),
            KeyCode::Char('k') | KeyCode::Up => self.previous(),
            KeyCode::Enter => {
                return match self.open_selected() {
                    Some(u) => TuiAction::Open(u),
                    None => TuiAction::Nothing,
                };
            },
            KeyCode::Char('/') => {
                self.mode = Mode::Search;
                self.status_msg = String::new();
            },
            KeyCode::Char('d') => {
                let msg = match self.selected_bookmark() {
                    Some(bm) => {
                        let mut m: Vec<char> = Vec::new();
                        push_text(&mut m, "Delete ");
                        push_text(&mut m, bm.url.as_str());
                        push_text(&mut m, "? (y/n)");
                        Some(string_of(&m))
                    },
                    None => None,
                };
                if let Some(m) = msg {
                    self.mode = Mode::ConfirmDelete;
                    self.status_msg = m;
                }
            },
            KeyCode::Char('g') => {
                if self.filtered.len() > 0 {
                    self.selected = Some(0);
                }
            },
            KeyCode::Char('G') => {
                if self.filtered.len() > 0 {
                    self.selected = Some(self.filtered.len() - 1);
                }
            },
            _ => {},
        }
        TuiAction::Nothing
    }

    /// Sets the search query, filters again and selects the first row.
    fn set_query(&mut self, query: String)
        requires
            old(self).wf(),
        ensures
            final(self).wf(),
            final(self)@ == requeried(old(self)@, query@),
    {
        self.search_query = query;
        self.apply_filter();
        if self.filtered.len() > 0 {
            self.selected = Some(0);
        }
    }

    /// Handles a key in search mode.
    pub fn handle_search_key(&mut self, code: KeyCode) -> (r: TuiAction)
        requires
            old(self).wf(),
        ensures
            final(self).wf(),
            final(self)@ == after_search_key(old(self)@, code),
            r is Nothing,
    {
        match code {
            KeyCode::Esc => {
                self.set_query(String::new());
                self.mode = Mode::Normal;
            },
            KeyCode::Enter => {
                self.mode = Mode::Normal;
            },
            KeyCode::Backspace => {
                let mut q = self.search_query.clone();
                let _ = pop_char(&mut q);
                self.set_query(q);
            },
            KeyCode::Char(c) => {
                let mut q = self.search_query.clone();
                string_push(&mut q, c);
                self.set_query(q);
            },
            _ => {},
        }
        TuiAction::Nothing
    }

    /// Handles a key while a deletion waits for confirmation.
    pub fn handle_confirm_key(&mut self, code: KeyCode) -> (r: TuiAction)
        requires
            old(self).wf(),
        ensures
            final(self).wf(),
            final(self)@ == after_confirm_key(old(self)@, code),
            is_yes(code) ==> match selected_of(old(self)@) {
                Some(b) => r matches TuiAction::Delete(u) && u@ == b.0,
                None => r is Nothing,
            },
            !is_yes(code) ==> r is Nothing,
    {
        let yes = match code {
            KeyCode::Char('y') | KeyCode::Char('Y') => true,
            _ => false,
        };
        if yes {
            let url = match self.selected_bookmark() {
                Some(bm) => {
                    let mut u: Vec<char> = Vec::new();
                    push_text(&mut u, bm.url.as_str());
                    Some(string_of(&u))
                },
                None => None,
            };
            match url {
                Some(u) => TuiAction::Delete(u),
                None => {
                    self.mode = Mode::Normal;
                    TuiAction::Nothing
                },
            }
        } else {
            self.mode = Mode::Normal;
            self.status_msg = String::new();
            TuiAction::Nothing
        }
    }

    /// Handles a key: Control-C quits; otherwise the key goes to the
    /// current mode.
    pub fn handle_key_event(&mut self, key: Key) -> (r: TuiAction)
        requires
            old(self).wf(),
        ensures
            final(self).wf(),
            final(self)@ == after_key(old(self)@, key),
            action_matches(old(self)@, key, r),
    {
        let interrupt = key.ctrl && match key.code {
            KeyCode::Char('c') => true,
            _ => false,
        };
        if interrupt {
            self.should_quit = true;
            return TuiAction::Nothing;
        }
        match self.mode {
            Mode::Normal => self.handle_normal_key(key.code),
            Mode::Search => self.handle_search_key(key.code),
            Mode::ConfirmDelete => self.handle_confirm_key(key.code),
        }
    }

    /// Completes a confirmed deletion: `outcome` is what removing the
    /// bookmark from the file gave, and `lines` the file's lines afterwards.
    /// On success the message is shown and the bookmarks are read again; on
    /// failure the error is shown. Either way the browser returns to normal
    /// mode.
    pub fn finish_delete(&mut self, outcome: Result<String, BmError>, lines: &[String])
        requires
            old(self).wf(),
        ensures
            final(self).wf(),
            final(self)@ == (match outcome {
                Ok(msg) => {
                    let bs = parsed_bookmarks(views(lines@));
                    let f = filter_indices(bs, lowercase(old(self)@.query));
                    AppView {
                        status: msg@,
                        bookmarks: bs,
                        filtered: f,
                        selected: clamp(old(self)@.selected, f.len()),
                        mode: Mode::Normal,
                        ..old(self)@
                    }
                },
                Err(e) => AppView {
                    status: "Error: "@ + e.message(),
                    mode: Mode::Normal,
                    ..old(self)@
                },
            }),
    {
        match outcome {
            Ok(msg) => {
                self.status_msg = msg;
                self.reload(lines);
                if self.filtered.len() == 0 {
                    self.selected = None;
                } else {
                    let sel = match self.selected {
                        Some(s) => s,
                        None => 0,
                    };
                    if sel >= self.filtered.len() {
                        self.selected = Some(self.filtered.len() - 1);
                    }
                }
            },
            Err(e) => {
                let mut m: Vec<char> = Vec::new();
                push_text(&mut m, "Error: ");
                push_text(&mut m, e.to_string().as_str());
                self.status_msg = string_of(&m);
            },
        }
        self.mode = Mode::Normal;
    }


    /// The table's title.
    pub fn table_title(&self) -> (r: String)
        ensures
            r@ == title_text(self@),
    {
        let mut t: Vec<char> = Vec::new();
        push_text(&mut t, " Bookmarks (");
        if self.search_query.as_str().is_empty() {
            push_decimal(&mut t, self.bookmarks.len());
        } else {
            push_decimal(&mut t, self.filtered.len());
            push_text(&mut t, "/");
            push_decimal(&mut t, self.bookmarks.len());
        }
        push_text(&mut t, ") ");
        assert(t@ =~= title_text(self@));
        string_of(&t)
    }

    /// The rows of the table: number, URL and label of each shown bookmark.
    pub fn table_rows(&self) -> (r: Vec<(String, String, String)>)
        requires
            self.wf(),
        ensures
            r@.len() == self@.filtered.len(),
            forall|k: int|
                0 <= k < r@.len() ==> ((#[trigger] r@[k]).0@, r@[k].1@, r@[k].2@) == table_row(
                    self@,
                    k,
                ),
    {
        proof {
            self.lemma_wf();
        }
        let mut rows: Vec<(String, String, String)> = Vec::new();
        let mut k: usize = 0;
        while k < self.filtered.len()
            invariant
                k <= self.filtered@.len(),
                self.wf(),
                self.filtered@.len() == self@.filtered.len(),
                forall|m: int|
                    0 <= m < self.filtered@.len() ==> 0 <= #[trigger] self.filtered@[m]
                        < self.bookmarks@.len(),
                rows@.len() == k,
                forall|m: int|
                    0 <= m < k ==> ((#[trigger] rows@[m]).0@, rows@[m].1@, rows@[m].2@) == table_row(
                        self@,
                        m,
                    ),
            decreases self.filtered.len() - k,
        {
            let idx = self.filtered[k];
            let b = &self.bookmarks[idx];
            assert(self@.filtered[k as int] == idx as int);
            assert(self@.bookmarks[idx as int] == b@);
            let mut num: Vec<char> = Vec::new();
            push_decimal(&mut num, k + 1);
            let mut cell: Vec<char> = Vec::new();
            let mut pad = num.len();
            while pad < 3
                invariant
                    num@.len() <= pad,
                    num@.len() < 3 ==> pad <= 3,
                    num@.len() >= 3 ==> pad == num@.len(),
                    cell@ == Seq::new((pad - num@.len()) as nat, |i: int| ' '),
                decreases 3 - pad,
            {
                cell.push(' ');
                assert(cell@ =~= Seq::new((pad + 1 - num@.len()) as nat, |i: int| ' '));
                pad += 1;
            }
            push_all(&mut cell, &num);
            assert(cell@ =~= padded3(num@));
            let mut u: Vec<char> = Vec::new();
            push_text(&mut u, b.url.as_str());
            let mut l: Vec<char> = Vec::new();
            push_text(&mut l, b.label.as_str());
            rows.push((string_of(&cell), string_of(&u), string_of(&l)));
            k += 1;
        }
        rows
    }

    /// The pieces of the footer, each with its colour.
    pub fn footer_spans(&self) -> (r: Vec<(String, SpanStyle)>)
        ensures
            spans_view(r@) == footer(self@),
    {
        let mut spans: Vec<(String, SpanStyle)> = Vec::new();
        let ghost v = self@;
        let has_query = !self.search_query.as_str().is_empty();
        let has_status = !self.status_msg.as_str().is_empty();
        if self.mode == Mode::Search {
            push_span(&mut spans, " /", SpanStyle::Yellow);
            push_span(&mut spans, self.search_query.as_str(), SpanStyle::Plain);
            push_span(&mut spans, "\u{2588}", SpanStyle::Yellow);
            push_span(&mut spans, "  ", SpanStyle::Plain);
        } else if has_query {
            let mut t: Vec<char> = Vec::new();
            push_text(&mut t, " filter: ");
            push_text(&mut t, self.search_query.as_str());
            push_text(&mut t, " ");
            let ts = string_of(&t);
            push_span(&mut spans, ts.as_str(), SpanStyle::Yellow);
        }
        if has_status {
            let mut t: Vec<char> = Vec::new();
            push_text(&mut t, " ");
            push_text(&mut t, self.status_msg.as_str());
            push_text(&mut t, " ");
            let ts = string_of(&t);
            push_span(&mut spans, ts.as_str(), SpanStyle::Green);
        }
        let ghost second = spans_view(spans@);
        if self.mode == Mode::Normal && !has_status {
            push_span(&mut spans, " j/k", SpanStyle::Cyan);
            push_span(&mut spans, ":nav ", SpanStyle::Plain);
            push_span(&mut spans, "Enter", SpanStyle::Cyan);
            push_span(&mut spans, ":open ", SpanStyle::Plain);
            push_span(&mut spans, "/", SpanStyle::Cyan);
            push_span(&mut spans, ":search ", SpanStyle::Plain);
            push_span(&mut spans, "d", SpanStyle::Cyan);
            push_span(&mut spans, ":del ", SpanStyle::Plain);
            push_span(&mut spans, "g/G", SpanStyle::Cyan);
            push_span(&mut spans, ":top/bottom ", SpanStyle::Plain);
            push_span(&mut spans, "q", SpanStyle::Cyan);
            push_span(&mut spans, ":quit", SpanStyle::Plain);
            assert(spans_view(spans@) =~= second + hints());
        } else {
            assert(spans_view(spans@) =~= second + seq![]);
        }
        assert(spans_view(spans@) =~= footer(v));
        spans
    }

    /// Whether the browser is to close.
    pub fn should_quit(&self) -> (r: bool)
        ensures
            r == self@.quit,
    {
        self.should_quit
    }

    /// The selected row, if any.
    pub fn selected(&self) -> (r: Option<usize>)
        ensures
            opt_int(r) == self@.selected,
    {
        self.selected
    }

    /// The current mode.
    pub fn mode(&self) -> (r: Mode)
        ensures
            r == self@.mode,
    {
        self.mode
    }

    /// The path of the bookmarks file.
    pub fn bm_path(&self) -> (r: &str)
        ensures
            r@ == self@.path,
    {
        self.bm_path.as_str()
    }

}

/// The bookmarks of the file whose lines are `lines`.
fn parse_bookmarks(lines: &[String]) -> (r: Vec<Bookmark>)
    ensures
        r@.map_values(|b: Bookmark| b@) == parsed_bookmarks(views(lines@)),
{
    let entries = bookmark_entries(lines);
    proof {
        lemma_entry_indices(views(lines@));
    }
    let ghost ls = views(lines@);
    assert forall|m: int| 0 <= m < entries@.len() implies entries@[m].1@ == ls[(#[trigger] entries@[m]).0 as int] by {
        assert(0 <= entry_indices(ls)[m] < ls.len());
    }
    let mut r: Vec<Bookmark> = Vec::new();
    let mut k: usize = 0;
    while k < entries.len()
        invariant
            k <= entries@.len(),
            ls == views(lines@),
            entries@.len() == entry_indices(ls).len(),
            forall|m: int|
                0 <= m < entries@.len() ==> (#[trigger] entries@[m]).0 == entry_indices(ls)[m]
                    && entries@[m].1@ == ls[entries@[m].0 as int],
            r@.map_values(|b: Bookmark| b@) == parsed_bookmarks(ls).take(k as int),
        decreases entries.len() - k,
    {
        let (idx, line) = entries[k];
        let b = bookmark_of(idx, line);
        let ghost before = r@;
        assert(line@ == ls[idx as int]);
        assert(parsed_bookmarks(ls)[k as int] == b@);
        r.push(b);
        assert(r@.map_values(|b: Bookmark| b@) =~= before.map_values(|b: Bookmark| b@).push(b@));
        assert(parsed_bookmarks(ls).take(k + 1) =~= parsed_bookmarks(ls).take(k as int).push(b@));
        assert(r@.map_values(|b: Bookmark| b@) =~= parsed_bookmarks(ls).take(k + 1));
        k += 1;
    }
    assert(parsed_bookmarks(ls).take(k as int) =~= parsed_bookmarks(ls));
    r
}

/// The bookmark on line `idx`, whose text is `line`.
fn bookmark_of(idx: usize, line: &str) -> (b: Bookmark)
    ensures
        b@ == (url_of(line@), line_label(line@), idx as int),
{
    let url = extract_url(line);
    let cs = chars_of(line);
    let marker = vec!['-', ' '];
    let stripped = if starts_with(&cs, &marker) {
        subvec(&cs, 2, cs.len())
    } else {
        subvec(&cs, 0, cs.len())
    };
    assert(cs@.subrange(0, cs@.len() as int) =~= cs@);
    let u = chars_of(url);
    let mut label: Vec<char> = Vec::new();
    if starts_with(&stripped, &u) {
        let after = subvec(&stripped, u.len(), stripped.len());
        let sep = vec![' ', '-', ' '];
        if starts_with(&after, &sep) {
            label = subvec(&after, 3, after.len());
            assert(label@ =~= stripped@.skip(u@.len() + 3int));
        }
        assert(after@ =~= stripped@.skip(u@.len() as int));
    }
    assert(label@ =~= line_label(line@));
    Bookmark { url: string_of(&u), label: string_of(&label), line_idx: idx }
}

} // verus!
