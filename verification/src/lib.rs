//! A bookmark manager backed by a markdown file. Each bookmark is a line
//! "- URL - Label" of the file; the library lists, searches, adds and removes
//! bookmarks over the file's lines, builds a bookmark's label from a page's
//! metadata, and keeps the state of the interactive browser.

pub mod bookmarks;
pub mod config;
pub mod error;
pub mod laws;
pub mod metadata;
pub mod text;
pub mod tui;

pub use bookmarks::{
    add_entry, already_bookmarked, bookmark_entries, cmd_list, cmd_remove, cmd_search, extract_url, is_duplicate, Added,
    Removal,
};
pub use config::{resolve_path, ResolvedPath};
pub use error::BmError;
pub use metadata::{
    clean_x_title, decode_html_entities, description_from_captures,
    extract_description_from_html, extract_first_paragraph, extract_metadata_from_html,
    extract_title_from_html, fetch_step, format_bookmark_label, is_x_url, label_from_html,
    label_from_reader, label_from_reader_response, title_from_capture, try_format_bookmark_label,
    uppercase_first, FetchAction, FetchEvent, PageMeta,
};
pub use text::{decimal_string, parse_usize, split_lines};
pub use tui::{App, Bookmark, Key, KeyCode, Mode, SpanStyle, TuiAction};
