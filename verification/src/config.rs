//! Where the configured bookmarks file lies.

use vstd::prelude::*;

use crate::text::{chars_of, string_of, subvec, utf8_width};

verus! {

/// The bookmarks path as configured, resolved against the home directory.
pub enum ResolvedPath {
    /// Join the second part onto the home directory given first.
    UnderHome(String, String),
    /// The path as written.
    AsWritten(String),
}

/// A path beginning with "~" is taken relative to the home directory, when
/// the home directory is known.
pub open spec fn expands_home(p: Seq<char>, home_known: bool) -> bool {
    home_known && p.len() > 0 && p[0] == '~'
}

/// Resolves the configured path `p`: with a home directory, a path that
/// begins with "~" stands for the home directory joined with what follows
/// its first two characters ("~/"); any other path is taken as written.
pub fn resolve_path(p: &str, home: Option<String>) -> (r: ResolvedPath)
    requires
        expands_home(p@, home is Some) ==> p@.len() >= 2 && utf8_width(p@[1]) == 1,
    ensures
        match r {
            ResolvedPath::UnderHome(h, rest) => expands_home(p@, home is Some) && home == Some(h)
                && rest@ == p@.skip(2),
            ResolvedPath::AsWritten(q) => !expands_home(p@, home is Some) && q@ == p@,
        },
{
    let cs = chars_of(p);
    if cs.len() > 0 && cs[0] == '~' {
        if let Some(h) = home {
            let rest = subvec(&cs, 2, cs.len());
            return ResolvedPath::UnderHome(h, string_of(&rest));
        }
    }
    let all = subvec(&cs, 0, cs.len());
    assert(all@ =~= p@);
    ResolvedPath::AsWritten(string_of(&all))
}

} // verus!
