//! The errors of the bookmark manager and the messages shown for them.

use vstd::prelude::*;

use crate::text::{decimal, push_decimal, push_text, string_of};

verus! {

/// What can go wrong. Paths are held as the text that is shown for them.
#[derive(Debug)]
pub enum BmError {
    /// No configuration file at this path.
    NoConfig(String),
    /// The configuration file at this path could not be parsed; the reason.
    InvalidConfig(String, String),
    /// The bookmarks file named in the configuration does not exist.
    FileNotFound(String),
    /// Reading or writing failed; the reason.
    IoError(String),
    /// The requested 1-based index, and the number of bookmarks.
    IndexOutOfRange(usize, usize),
    /// No bookmark has this URL.
    BookmarkNotFound(String),
}

impl BmError {
    /// The message shown for the error.
    pub open spec fn message(&self) -> Seq<char> {
        match self {
            BmError::NoConfig(p) => "No config found. Create "@ + p@
                + " with:\n\n  bookmarks_file = \"/path/to/bookmarks.md\"\n"@,
            BmError::InvalidConfig(p, e) => "Invalid config "@ + p@ + ": "@ + e@,
            BmError::FileNotFound(p) => "Bookmarks file not found: "@ + p@,
            BmError::IoError(e) => e@,
            BmError::IndexOutOfRange(idx, max) => "Index "@ + decimal(*idx as nat)
                + " out of range (1-"@ + decimal(*max as nat) + ")."@,
            BmError::BookmarkNotFound(t) => "Bookmark not found: "@ + t@,
        }
    }

    /// The message shown for the error.
    pub fn to_string(&self) -> (r: String)
        ensures
            r@ == self.message(),
    {
        let mut out: Vec<char> = Vec::new();
        match self {
            BmError::NoConfig(p) => {
                push_text(&mut out, "No config found. Create ");
                push_text(&mut out, p.as_str());
                push_text(&mut out, " with:\n\n  bookmarks_file = \"/path/to/bookmarks.md\"\n");
            },
            BmError::InvalidConfig(p, e) => {
                push_text(&mut out, "Invalid config ");
                push_text(&mut out, p.as_str());
                push_text(&mut out, ": ");
                push_text(&mut out, e.as_str());
            },
            BmError::FileNotFound(p) => {
                push_text(&mut out, "Bookmarks file not found: ");
                push_text(&mut out, p.as_str());
            },
            BmError::IoError(e) => {
                push_text(&mut out, e.as_str());
            },
            BmError::IndexOutOfRange(idx, max) => {
                push_text(&mut out, "Index ");
                push_decimal(&mut out, *idx);
                push_text(&mut out, " out of range (1-");
                push_decimal(&mut out, *max);
                push_text(&mut out, ").");
            },
            BmError::BookmarkNotFound(t) => {
                push_text(&mut out, "Bookmark not found: ");
                push_text(&mut out, t.as_str());
            },
        }
        assert(out@ =~= self.message());
        string_of(&out)
    }
}

} // verus!
