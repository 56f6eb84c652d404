//! The bookmarks file: which of its lines are bookmarks, the URL of a
//! bookmark line, and the list, search, add and remove commands over the
//! file's lines.

use vstd::prelude::*;
use vstd::string::StrSliceExecFns;

use crate::error::BmError;
use crate::text::{
    chars_of, contains_seq, decimal, ends_with, first_word, has_infix, has_prefix, has_suffix,
    is_white, is_white_char, join_lines, lemma_lead_count, lowercase, parse_unsigned, parse_usize,
    push_all, push_decimal, push_text, starts_with, string_of, subvec, to_lower, trim_start, vec_eq,
    views,
};

verus! {

// ---------------------------------------------------------------------------
// Bookmark lines
// ---------------------------------------------------------------------------

/// The marker that opens a bookmark line.
pub open spec fn entry_marker() -> Seq<char> {
    seq!['-', ' ']
}

/// A bookmark line begins with "- ".
pub open spec fn is_entry(l: Seq<char>) -> bool {
    has_prefix(l, entry_marker())
}

/// The indices of the bookmark lines among `ls`, in order.
pub open spec fn entry_indices(ls: Seq<Seq<char>>) -> Seq<int>
    decreases ls.len(),
{
    if ls.len() == 0 {
        seq![]
    } else if is_entry(ls.last()) {
        entry_indices(ls.drop_last()).push(ls.len() - 1)
    } else {
        entry_indices(ls.drop_last())
    }
}

/// The bookmark lines among `ls`, in order.
pub open spec fn entry_lines(ls: Seq<Seq<char>>) -> Seq<Seq<char>> {
    entry_indices(ls).map_values(|i: int| ls[i])
}

/// `l` without its leading "- ", if it has one.
pub open spec fn strip_marker(l: Seq<char>) -> Seq<char> {
    if has_prefix(l, entry_marker()) {
        l.skip(2)
    } else {
        l
    }
}

/// The URL of a line: after the "- " marker, the first whitespace-separated
/// word, or the rest of the line when there is no word.
pub open spec fn url_of(l: Seq<char>) -> Seq<char> {
    let s = strip_marker(l);
    match first_word(s) {
        Some(w) => w,
        None => s,
    }
}

pub proof fn lemma_entry_indices(ls: Seq<Seq<char>>)
    ensures
        forall|k: int|
            0 <= k < entry_indices(ls).len() ==> 0 <= #[trigger] entry_indices(ls)[k] < ls.len()
                && is_entry(ls[entry_indices(ls)[k]]),
        forall|k: int, j: int|
            0 <= k < j < entry_indices(ls).len() ==> #[trigger] entry_indices(ls)[k]
                < #[trigger] entry_indices(ls)[j],
        forall|i: int|
            0 <= i < ls.len() && is_entry(#[trigger] ls[i]) ==> entry_indices(ls).contains(i),
    decreases ls.len(),
{
    if ls.len() > 0 {
        let prev = ls.drop_last();
        lemma_entry_indices(prev);
        assert forall|i: int| 0 <= i < ls.len() && is_entry(#[trigger] ls[i]) implies entry_indices(
            ls,
        ).contains(i) by {
            if i < ls.len() - 1 {
                assert(prev[i] == ls[i]);
                let k = choose|k: int| 0 <= k < entry_indices(prev).len() && entry_indices(prev)[k] == i;
                assert(entry_indices(ls)[k] == i);
            } else {
                assert(entry_indices(ls)[entry_indices(ls).len() - 1] == i);
            }
        }
    }
}

proof fn lemma_views_take(lines: Seq<String>, i: int)
    requires
        0 <= i < lines.len(),
    ensures
        views(lines).take(i + 1).drop_last() == views(lines).take(i),
        views(lines).take(i + 1).last() == lines[i]@,
        views(lines).take(i + 1).len() == i + 1,
{
    assert(views(lines).take(i + 1).drop_last() =~= views(lines).take(i));
}

/// Whether the line `l` is a bookmark line.
fn is_entry_line(l: &str) -> (r: bool)
    ensures
        r == is_entry(l@),
{
    let cs = chars_of(l);
    let marker = vec!['-', ' '];
    starts_with(&cs, &marker)
}

/// The bookmark lines of `lines`, each with its index among `lines`.
pub fn bookmark_entries(lines: &[String]) -> (r: Vec<(usize, &str)>)
    ensures
        r@.len() == entry_indices(views(lines@)).len(),
        forall|k: int|
            0 <= k < r@.len() ==> r@[k].0 == entry_indices(views(lines@))[k] && (#[trigger] r@[k]).1@
                == lines@[r@[k].0 as int]@,
{
    let mut r: Vec<(usize, &str)> = Vec::new();
    let mut i: usize = 0;
    while i < lines.len()
        invariant
            i <= lines@.len(),
            r@.len() == entry_indices(views(lines@).take(i as int)).len(),
            forall|k: int|
                0 <= k < r@.len() ==> r@[k].0 == entry_indices(views(lines@).take(i as int))[k] && (
                #[trigger] r@[k]).1@ == lines@[r@[k].0 as int]@,
        decreases lines.len() - i,
    {
        proof {
            lemma_views_take(lines@, i as int);
        }
        let line: &str = lines[i].as_str();
        if is_entry_line(line) {
            r.push((i, line));
        }
        i += 1;
    }
    assert(views(lines@).take(i as int) =~= views(lines@));
    r
}

/// The URL of a bookmark line: after the "- " marker, its first
/// whitespace-separated word, or the rest of the line if there is none.
pub fn extract_url(line: &str) -> (r: &str)
    ensures
        r@ == url_of(line@),
{
    let cs = chars_of(line);
    let marker = vec!['-', ' '];
    let start: usize = if starts_with(&cs, &marker) {
        2
    } else {
        0
    };
    let ghost s = strip_marker(line@);
    assert(s =~= line@.skip(start as int));
    let mut i = start;
    while i < cs.len() && is_white_char(cs[i])
        invariant
            start <= i <= cs@.len(),
            cs@ == line@,
            forall|k: int| start <= k < i ==> is_white(#[trigger] cs@[k]),
        decreases cs.len() - i,
    {
        i += 1;
    }
    proof {
        assert forall|k: int| 0 <= k < i - start implies is_white(#[trigger] s[k])
            == true by {
            assert(s[k] == cs@[start + k]);
        }
        if i < cs@.len() {
            assert(s[i - start] == cs@[i as int]);
        }
        lemma_lead_count(s, true, i - start);
        assert(trim_start(s) =~= line@.skip(i as int));
    }
    if i == cs.len() {
        return line.substring_char(start, cs.len());
    }
    let mut j = i;
    while j < cs.len() && !is_white_char(cs[j])
        invariant
            i <= j <= cs@.len(),
            cs@ == line@,
            forall|k: int| i <= k < j ==> !is_white(#[trigger] cs@[k]),
        decreases cs.len() - j,
    {
        j += 1;
    }
    proof {
        let t = trim_start(s);
        assert forall|k: int| 0 <= k < j - i implies is_white(#[trigger] t[k])
            == false by {
            assert(t[k] == cs@[i + k]);
        }
        if j < cs@.len() {
            assert(t[j - i] == cs@[j as int]);
        }
        lemma_lead_count(t, false, j - i);
        assert(t.take(j - i) =~= line@.subrange(i as int, j as int));
    }
    line.substring_char(i, j)
}

/// Some bookmark line among `ls` has the URL `url`.
pub open spec fn has_url(ls: Seq<Seq<char>>, url: Seq<char>) -> bool {
    exists|k: int| 0 <= k < entry_lines(ls).len() && url_of(#[trigger] entry_lines(ls)[k]) == url
}

/// Whether some bookmark among `lines` has the URL `url`.
pub fn is_duplicate(url: &str, lines: &[String]) -> (r: bool)
    ensures
        r == has_url(views(lines@), url@),
{
    let entries = bookmark_entries(lines);
    let ghost es = entry_lines(views(lines@));
    let target = chars_of(url);
    proof {
        lemma_entry_indices(views(lines@));
    }
    assert forall|m: int| 0 <= m < entries@.len() implies (#[trigger] entries@[m]).1@ == es[m] by {
        assert(views(lines@)[entries@[m].0 as int] == lines@[entries@[m].0 as int]@);
    }
    let mut k: usize = 0;
    while k < entries.len()
        invariant
            k <= entries@.len(),
            entries@.len() == es.len(),
            es == entry_lines(views(lines@)),
            target@ == url@,
            forall|m: int| 0 <= m < entries@.len() ==> (#[trigger] entries@[m]).1@ == es[m],
            forall|m: int| 0 <= m < k ==> url_of(#[trigger] es[m]) != url@,
        decreases entries.len() - k,
    {
        let u = chars_of(extract_url(entries[k].1));
        if vec_eq(&u, &target) {
            assert(url_of(entry_lines(views(lines@))[k as int]) == url@);
            return true;
        }
        k += 1;
    }
    false
}


/// `l` without its leading "- ", if it has one.
fn strip_marker_vec(l: &Vec<char>) -> (r: Vec<char>)
    ensures
        r@ == strip_marker(l@),
{
    let marker = vec!['-', ' '];
    if starts_with(l, &marker) {
        subvec(l, 2, l.len())
    } else {
        subvec(l, 0, l.len())
    }
}

proof fn lemma_entry_lines_of_views(lines: Seq<String>)
    ensures
        entry_lines(views(lines)).len() == entry_indices(views(lines)).len(),
        forall|k: int|
            0 <= k < entry_indices(views(lines)).len() ==> #[trigger] entry_lines(views(lines))[k]
                == lines[entry_indices(views(lines))[k]]@,
{
    lemma_entry_indices(views(lines));
}

// ---------------------------------------------------------------------------
// Adding
// ---------------------------------------------------------------------------

/// Whether adding `url` may go ahead: `None` when no bookmark among `lines`
/// has the URL, otherwise the message that it is already bookmarked.
pub fn already_bookmarked(url: &str, lines: &[String]) -> (r: Option<String>)
    ensures
        r is None <==> !has_url(views(lines@), url@),
        r matches Some(m) ==> m@ == "Already bookmarked: "@ + url@,
{
    if is_duplicate(url, lines) {
        let mut m: Vec<char> = Vec::new();
        push_text(&mut m, "Already bookmarked: ");
        push_text(&mut m, url);
        Some(string_of(&m))
    } else {
        None
    }
}

/// The separator between a bookmark's URL and its title.
pub open spec fn title_separator() -> Seq<char> {
    seq![' ', '-', ' ']
}

/// The bookmark line for `url`, with its title when there is one.
pub open spec fn entry_text(url: Seq<char>, title: Option<Seq<char>>) -> Seq<char> {
    match title {
        Some(t) => entry_marker() + url + title_separator() + t,
        None => entry_marker() + url,
    }
}

/// The view of an optional string.
pub open spec fn opt_view(o: Option<String>) -> Option<Seq<char>> {
    match o {
        Some(s) => Some(s@),
        None => None,
    }
}

/// `content` with the line `entry` appended: a line feed is put first when
/// `content` does not end with one, and `entry` is ended by a line feed.
pub open spec fn appended(content: Seq<char>, entry: Seq<char>) -> Seq<char> {
    (if has_suffix(content, seq!['\n']) {
        content
    } else {
        content.push('\n')
    }) + entry.push('\n')
}

/// The file content after adding a bookmark, and the message for it.
pub struct Added {
    pub content: String,
    pub message: String,
}

/// Adds the bookmark `url` (with `title` when there is one) at the end of the
/// bookmarks file whose content is `content`. Nothing is checked for
/// duplicates.
pub fn add_entry(url: &str, title: Option<String>, content: &str) -> (r: Added)
    ensures
        r.content@ == appended(content@, entry_text(url@, opt_view(title))),
        r.message@ == "Bookmarked: "@ + strip_marker(entry_text(url@, opt_view(title))),
{
    let mut entry: Vec<char> = vec!['-', ' '];
    push_text(&mut entry, url);
    match &title {
        Some(t) => {
            let sep = vec![' ', '-', ' '];
            push_all(&mut entry, &sep);
            push_text(&mut entry, t.as_str());
        },
        None => {},
    }
    assert(entry@ =~= entry_text(url@, opt_view(title)));
    let mut out = chars_of(content);
    let newline = vec!['\n'];
    assert(newline@ =~= seq!['\n']);
    let ghost c0 = out@;
    if !ends_with(&out, &newline) {
        out.push('\n');
    }
    assert(out@ == (if has_suffix(c0, seq!['\n']) {
        c0
    } else {
        c0.push('\n')
    }));
    push_all(&mut out, &entry);
    out.push('\n');
    assert(out@ =~= appended(content@, entry@));
    let mut msg: Vec<char> = Vec::new();
    push_text(&mut msg, "Bookmarked: ");
    let stripped = strip_marker_vec(&entry);
    push_all(&mut msg, &stripped);
    Added { content: string_of(&out), message: string_of(&msg) }
}

// ---------------------------------------------------------------------------
// Listing and searching
// ---------------------------------------------------------------------------

/// The items, each on a line of its own after two spaces and its 1-based
/// number.
pub open spec fn numbered(items: Seq<Seq<char>>) -> Seq<char>
    decreases items.len(),
{
    if items.len() == 0 {
        seq![]
    } else {
        numbered(items.drop_last()) + "  "@ + decimal(items.len()) + ". "@ + items.last() + "\n"@
    }
}

/// The bookmark lines of `ls` without their "- " marker.
pub open spec fn entry_contents(ls: Seq<Seq<char>>) -> Seq<Seq<char>> {
    entry_lines(ls).map_values(|l: Seq<char>| strip_marker(l))
}

/// What the list command shows for the lines `ls`.
pub open spec fn list_output(ls: Seq<Seq<char>>) -> Seq<char> {
    let items = entry_contents(ls);
    if items.len() == 0 {
        "No bookmarks found."@
    } else {
        numbered(items) + "\n"@ + decimal(items.len()) + " bookmark(s)"@
    }
}

/// The numbered list of the bookmarks among `lines`, with their count.
pub fn cmd_list(lines: &[String]) -> (r: String)
    ensures
        r@ == list_output(views(lines@)),
{
    let entries = bookmark_entries(lines);
    proof {
        lemma_entry_lines_of_views(lines@);
    }
    let ghost items = entry_contents(views(lines@));
    if entries.len() == 0 {
        return string_of(&chars_of("No bookmarks found."));
    }
    let mut out: Vec<char> = Vec::new();
    let mut k: usize = 0;
    while k < entries.len()
        invariant
            k <= entries@.len(),
            items.len() == entries@.len(),
            items == entry_contents(views(lines@)),
            forall|m: int| 0 <= m < entries@.len() ==> items[m] == strip_marker((#[trigger] entries@[m]).1@),
            out@ == numbered(items.take(k as int)),
        decreases entries.len() - k,
    {
        assert(items.take(k + 1).drop_last() =~= items.take(k as int));
        push_text(&mut out, "  ");
        push_decimal(&mut out, k + 1);
        push_text(&mut out, ". ");
        let line = chars_of(entries[k].1);
        let content = strip_marker_vec(&line);
        push_all(&mut out, &content);
        push_text(&mut out, "\n");
        k += 1;
    }
    assert(items.take(k as int) =~= items);
    push_text(&mut out, "\n");
    push_decimal(&mut out, entries.len());
    push_text(&mut out, " bookmark(s)");
    string_of(&out)
}

/// The lines among `es` whose lowercase form contains `q`, in order.
pub open spec fn search_hits(es: Seq<Seq<char>>, q: Seq<char>) -> Seq<Seq<char>>
    decreases es.len(),
{
    if es.len() == 0 {
        seq![]
    } else if has_infix(lowercase(es.last()), q) {
        search_hits(es.drop_last(), q).push(es.last())
    } else {
        search_hits(es.drop_last(), q)
    }
}

/// The items without their "- " marker, each on a line of its own after two
/// spaces.
pub open spec fn bulleted(items: Seq<Seq<char>>) -> Seq<char>
    decreases items.len(),
{
    if items.len() == 0 {
        seq![]
    } else {
        bulleted(items.drop_last()) + "  "@ + strip_marker(items.last()) + "\n"@
    }
}

/// What the search command shows for `query` over the lines `ls`: the
/// bookmark lines that contain the query, both taken in lowercase.
pub open spec fn search_output(query: Seq<char>, ls: Seq<Seq<char>>) -> Seq<char> {
    let hits = search_hits(entry_lines(ls), lowercase(query));
    if hits.len() == 0 {
        "No bookmarks matching \""@ + query + "\"."@
    } else {
        bulleted(hits) + "\n"@ + decimal(hits.len()) + " result(s)"@
    }
}

/// The bookmarks among `lines` that contain `query`, ignoring case, with
/// their count.
pub fn cmd_search(query: &str, lines: &[String]) -> (r: String)
    ensures
        r@ == search_output(query@, views(lines@)),
{
    let entries = bookmark_entries(lines);
    proof {
        lemma_entry_lines_of_views(lines@);
    }
    let ghost es = entry_lines(views(lines@));
    let q = chars_of(to_lower(query).as_str());
    let mut hits: Vec<&str> = Vec::new();
    let mut k: usize = 0;
    while k < entries.len()
        invariant
            k <= entries@.len(),
            es.len() == entries@.len(),
            es == entry_lines(views(lines@)),
            q@ == lowercase(query@),
            forall|m: int| 0 <= m < entries@.len() ==> es[m] == (#[trigger] entries@[m]).1@,
            hits@.map_values(|h: &str| h@) == search_hits(es.take(k as int), q@),
        decreases entries.len() - k,
    {
        assert(es.take(k + 1).drop_last() =~= es.take(k as int));
        let line = entries[k].1;
        let lower = chars_of(to_lower(line).as_str());
        if contains_seq(&lower, &q) {
            let ghost before = hits@;
            hits.push(line);
            assert(hits@.map_values(|h: &str| h@) =~= before.map_values(|h: &str| h@).push(line@));
        }
        k += 1;
    }
    assert(es.take(k as int) =~= es);
    let ghost hs = search_hits(es, q@);
    if hits.len() == 0 {
        let mut out: Vec<char> = Vec::new();
        push_text(&mut out, "No bookmarks matching \"");
        push_text(&mut out, query);
        push_text(&mut out, "\".");
        return string_of(&out);
    }
    let mut out: Vec<char> = Vec::new();
    let mut j: usize = 0;
    while j < hits.len()
        invariant
            j <= hits@.len(),
            hits@.map_values(|h: &str| h@) == hs,
            out@ == bulleted(hs.take(j as int)),
        decreases hits.len() - j,
    {
        assert(hs.take(j + 1).drop_last() =~= hs.take(j as int));
        assert(hs[j as int] == hits@[j as int]@);
        push_text(&mut out, "  ");
        let line = chars_of(hits[j]);
        let content = strip_marker_vec(&line);
        push_all(&mut out, &content);
        push_text(&mut out, "\n");
        j += 1;
    }
    assert(hs.take(j as int) =~= hs);
    push_text(&mut out, "\n");
    push_decimal(&mut out, hits.len());
    push_text(&mut out, " result(s)");
    string_of(&out)
}

// ---------------------------------------------------------------------------
// Removing
// ---------------------------------------------------------------------------

/// The position among `es` of the first line whose URL is `t`.
pub open spec fn first_url_match(es: Seq<Seq<char>>, t: Seq<char>) -> Option<int>
    decreases es.len(),
{
    if es.len() == 0 {
        None
    } else if url_of(es[0]) == t {
        Some(0)
    } else {
        match first_url_match(es.drop_first(), t) {
            Some(k) => Some(k + 1),
            None => None,
        }
    }
}

pub proof fn lemma_first_url_match(es: Seq<Seq<char>>, t: Seq<char>, k: int)
    requires
        0 <= k <= es.len(),
        forall|j: int| 0 <= j < k ==> url_of(#[trigger] es[j]) != t,
        k == es.len() || url_of(es[k]) == t,
    ensures
        first_url_match(es, t) == (if k == es.len() {
            None::<int>
        } else {
            Some(k)
        }),
    decreases k,
{
    if k > 0 {
        assert forall|j: int| 0 <= j < k - 1 implies url_of(#[trigger] es.drop_first()[j]) != t by {
            assert(es.drop_first()[j] == es[j + 1]);
        }
        lemma_first_url_match(es.drop_first(), t, k - 1);
    }
}

/// The index of the line that removing `target` takes out of `ls`: for a
/// number `n`, the `n`-th bookmark line (counted from 1); otherwise the first
/// bookmark line whose URL is `target`. `None` when there is no such line.
pub open spec fn removal_index(target: Seq<char>, ls: Seq<Seq<char>>) -> Option<int> {
    let idx = entry_indices(ls);
    match parse_unsigned(target) {
        Some(n) => if 1 <= n <= idx.len() {
            Some(idx[n - 1])
        } else {
            None
        },
        None => match first_url_match(entry_lines(ls), target) {
            Some(k) => Some(idx[k]),
            None => None,
        },
    }
}

/// The file content that is written back once line `i` is taken out of
/// `ls`: the remaining lines joined by line feeds, ending with a line feed.
pub open spec fn rewritten(ls: Seq<Seq<char>>, i: int) -> Seq<char> {
    let j = join_lines(ls.remove(i));
    if has_suffix(j, seq!['\n']) {
        j
    } else {
        j.push('\n')
    }
}

/// The file content after removing a bookmark, and the message for it.
pub struct Removal {
    pub content: String,
    pub message: String,
}

/// Removes a bookmark from the bookmarks file whose lines are `lines`.
/// `target` is either a 1-based index among the bookmarks (anything that
/// parses as a `usize`) or the URL of a bookmark; when several bookmarks have
/// that URL, the first is removed.
pub fn cmd_remove(target: &str, lines: &[String]) -> (r: Result<Removal, BmError>)
    ensures
        r is Ok <==> removal_index(target@, views(lines@)) is Some,
        r matches Ok(rem) ==> {
            let i = removal_index(target@, views(lines@))->0;
            &&& rem.content@ == rewritten(views(lines@), i)
            &&& rem.message@ == "Removed: "@ + strip_marker(views(lines@)[i])
        },
        r matches Err(e) ==> match parse_unsigned(target@) {
            Some(n) => e == BmError::IndexOutOfRange(
                n as usize,
                entry_indices(views(lines@)).len() as usize,
            ),
            None => e matches BmError::BookmarkNotFound(t) && t@ == target@,
        },
{
    let entries = bookmark_entries(lines);
    proof {
        lemma_entry_lines_of_views(lines@);
        lemma_entry_indices(views(lines@));
    }
    let ghost ls = views(lines@);
    let ghost es = entry_lines(ls);
    let remove_at: usize;
    match parse_usize(target) {
        Some(n) => {
            if n == 0 || n > entries.len() {
                return Err(BmError::IndexOutOfRange(n, entries.len()));
            }
            remove_at = entries[n - 1].0;
        },
        None => {
            let t = chars_of(target);
            let mut k: usize = 0;
            while k < entries.len()
                invariant
                    k <= entries@.len(),
                    es.len() == entries@.len(),
                    es == entry_lines(views(lines@)),
                    t@ == target@,
                    forall|m: int| 0 <= m < entries@.len() ==> es[m] == (#[trigger] entries@[m]).1@,
                    forall|m: int| 0 <= m < k ==> url_of(#[trigger] es[m]) != target@,
                ensures
                    k <= entries@.len(),
                    forall|m: int| 0 <= m < k ==> url_of(#[trigger] es[m]) != target@,
                    k == entries@.len() || url_of(es[k as int]) == target@,
                decreases entries.len() - k,
            {
                let u = chars_of(extract_url(entries[k].1));
                if vec_eq(&u, &t) {
                    break;
                }
                k += 1;
            }
            proof {
                lemma_first_url_match(es, target@, k as int);
            }
            if k == entries.len() {
                return Err(BmError::BookmarkNotFound(string_of(&t)));
            }
            remove_at = entries[k].0;
        },
    }
    let ghost i = remove_at as int;
    assert(removal_index(target@, ls) == Some(i));
    assert(0 <= i < ls.len());
    assert(ls[i] == lines@[i]@);
    let removed = chars_of(lines[remove_at].as_str());
    let mut msg: Vec<char> = Vec::new();
    push_text(&mut msg, "Removed: ");
    let stripped = strip_marker_vec(&removed);
    push_all(&mut msg, &stripped);
    let mut out: Vec<char> = Vec::new();
    let ghost mut kept: Seq<Seq<char>> = seq![];
    let mut p: usize = 0;
    let mut first = true;
    while p < lines.len()
        invariant
            p <= lines@.len(),
            first == (kept.len() == 0),
            ls == views(lines@),
            i == remove_at as int,
            0 <= i < ls.len(),
            kept == (if p <= i {
                ls.take(p as int)
            } else {
                ls.subrange(0, i) + ls.subrange(i + 1, p as int)
            }),
            out@ == join_lines(kept),
        decreases lines.len() - p,
    {
        if p != remove_at {
            let line = chars_of(lines[p].as_str());
            let ghost before = kept;
            if !first {
                out.push('\n');
            }
            first = false;
            push_all(&mut out, &line);
            proof {
                kept = before.push(line@);
                assert(kept.drop_last() =~= before);
                assert(ls[p as int] == line@);
                if p < i {
                    assert(kept =~= ls.take(p + 1));
                } else {
                    assert(kept =~= ls.subrange(0, i) + ls.subrange(i + 1, p + 1));
                }
            }
        } else {
            proof {
                assert(kept =~= ls.subrange(0, i) + ls.subrange(i + 1, p + 1));
            }
        }
        p += 1;
    }
    assert(kept =~= ls.remove(i));
    let newline = vec!['\n'];
    assert(newline@ =~= seq!['\n']);
    if !ends_with(&out, &newline) {
        out.push('\n');
    }
    assert(out@ == rewritten(ls, i));
    Ok(Removal { content: string_of(&out), message: string_of(&msg) })
}

} // verus!
