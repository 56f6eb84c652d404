//! Properties that relate the commands to each other: adding appends one
//! bookmark line, an added URL is then a duplicate, removing a just-added
//! bookmark gives back the file as it was, removal by URL succeeds exactly
//! for duplicates, removal by number takes out the bookmark listed under
//! that number, the list numbers the bookmarks from 1, a search hits exactly
//! the lines that contain the query and finds a bookmark by its URL, a label
//! begins with its title and keeps a description that already starts with
//! it, decoding entities never lengthens a text, a description is the first
//! one the searches find, a page's paragraph is its first line that reads as
//! one, cut to stay short, the browser shows exactly the bookmarks whose URL
//! or label contains the query, keys keep the browser's bookmarks and its
//! consistency, and moving down then up returns to the same row.

use vstd::prelude::*;

use crate::bookmarks::{
    appended, entry_contents, entry_indices, entry_lines, entry_marker, entry_text,
    first_url_match, has_url, is_entry, lemma_entry_indices, lemma_first_url_match,
    removal_index, rewritten, search_hits, search_output, strip_marker, title_separator, url_of,
    bulleted, numbered, list_output,
};
use crate::metadata::{
    cleaned_text, description_of, regex_group, META_DESCRIPTION_PATTERN,
    META_DESCRIPTION_REVERSED_PATTERN, OG_DESCRIPTION_PATTERN, OG_DESCRIPTION_REVERSED_PATTERN,
    decode_entities,
    chars_in_bytes, chars_starting_before, first_paragraph, has_title_prefix, is_reworded,
    label_of, label_undefined, lemma_chars_starting_before_bound, reworded_rest, shortened,
    skipped_line,
    upper_first,
};
use crate::text::{
    has_infix, occurs_at, replace_all, ascii_lower,
    ascii_lowercase, ascii_upper, has_prefix, is_ascii_text, lowercase, trim_start,
    byte_len, decimal, digit_char, digits_value, has_suffix, is_digit, is_white, join_lines,
    lemma_byte_len_first, lemma_lead_count, lemma_lead_count_le, lead_count, line_pieces, lines_of, parse_unsigned, strip_cr, trim,
    unsigned_digits, utf8_width,
};
use crate::tui::{after_key, consistent, filter_indices, next_row, previous_row, AppView, Key};

verus! {

// ---------------------------------------------------------------------------
// Lines
// ---------------------------------------------------------------------------

/// The text written back for the lines `ls`: joined by line feeds and ending
/// with one.
pub open spec fn rejoined(ls: Seq<Seq<char>>) -> Seq<char> {
    let j = join_lines(ls);
    if has_suffix(j, seq!['\n']) {
        j
    } else {
        j.push('\n')
    }
}

/// `s` holds no line feed.
pub open spec fn single_line(s: Seq<char>) -> bool {
    forall|k: int| 0 <= k < s.len() ==> s[k] != '\n'
}

/// `s` is a URL as a bookmark line holds it: not empty and without
/// whitespace.
pub open spec fn plain_url(s: Seq<char>) -> bool {
    s.len() > 0 && forall|k: int| 0 <= k < s.len() ==> !is_white(#[trigger] s[k])
}

proof fn lemma_pieces_append(a: Seq<char>, x: Seq<char>)
    requires
        single_line(x),
    ensures
        line_pieces(a + x) == (line_pieces(a).0, line_pieces(a).1 + x),
    decreases x.len(),
{
    if x.len() == 0 {
        assert(a + x =~= a);
        assert(line_pieces(a).1 + x =~= line_pieces(a).1);
    } else {
        lemma_pieces_append(a, x.drop_last());
        assert((a + x).drop_last() =~= a + x.drop_last());
        assert((a + x).last() == x.last());
        assert(line_pieces(a).1 + x =~= (line_pieces(a).1 + x.drop_last()).push(x.last()));
    }
}

proof fn lemma_pieces_newline(a: Seq<char>)
    ensures
        line_pieces(a.push('\n')) == (line_pieces(a).0.push(strip_cr(line_pieces(a).1)), Seq::<
            char,
        >::empty()),
{
    assert(a.push('\n').drop_last() =~= a);
}

/// The text before the new line in a file with a line appended.
pub open spec fn appended_base(content: Seq<char>) -> Seq<char> {
    if has_suffix(content, seq!['\n']) {
        content
    } else {
        content.push('\n')
    }
}

proof fn lemma_appended_lines(content: Seq<char>, entry: Seq<char>)
    requires
        single_line(entry),
    ensures
        lines_of(appended(content, entry)) == line_pieces(appended_base(content)).0.push(
            strip_cr(entry),
        ),
{
    let base = appended_base(content);
    assert(appended(content, entry) =~= (base + entry).push('\n'));
    assert(line_pieces(base).1 =~= Seq::<char>::empty()) by {
        if has_suffix(content, seq!['\n']) {
            assert(content.skip(content.len() - 1)[0] == content.last());
            assert(content.drop_last().push('\n') =~= content);
            lemma_pieces_newline(content.drop_last());
        } else {
            lemma_pieces_newline(content);
        }
    }
    lemma_pieces_append(base, entry);
    assert(Seq::<char>::empty() + entry =~= entry);
    lemma_pieces_newline(base + entry);
}

proof fn lemma_base_lines(content: Seq<char>)
    requires
        content.len() > 0,
        !has_suffix(content, seq!['\r']),
    ensures
        line_pieces(appended_base(content)).0 == lines_of(content),
{
    if has_suffix(content, seq!['\n']) {
        assert(content.skip(content.len() - 1)[0] == content.last());
        assert(content.drop_last().push('\n') =~= content);
        lemma_pieces_newline(content.drop_last());
    } else {
        lemma_pieces_newline(content);
        assert(content.last() != '\n') by {
            assert(content.skip(content.len() - 1) =~= seq![content.last()]);
        }
        assert(content.last() != '\r') by {
            assert(content.skip(content.len() - 1) =~= seq![content.last()]);
        }
        let cur = line_pieces(content).1;
        assert(cur == line_pieces(content.drop_last()).1.push(content.last()));
        assert(strip_cr(cur) == cur);
    }
}

/// Adding a bookmark appends exactly one line, the bookmark's, to the lines
/// of a non-empty file that does not end in a bare carriage return.
pub proof fn law_add_appends_one_line(content: Seq<char>, url: Seq<char>, title: Option<Seq<char>>)
    requires
        content.len() > 0,
        !has_suffix(content, seq!['\r']),
        single_line(entry_text(url, title)),
    ensures
        lines_of(appended(content, entry_text(url, title))) == lines_of(content).push(
            strip_cr(entry_text(url, title)),
        ),
{
    lemma_appended_lines(content, entry_text(url, title));
    lemma_base_lines(content);
}

// ---------------------------------------------------------------------------
// Bookmark lines and URLs
// ---------------------------------------------------------------------------

proof fn lemma_entry_push(ls: Seq<Seq<char>>, x: Seq<char>)
    requires
        is_entry(x),
    ensures
        entry_indices(ls.push(x)) == entry_indices(ls).push(ls.len() as int),
        entry_lines(ls.push(x)) == entry_lines(ls).push(x),
{
    let l2 = ls.push(x);
    assert(l2.drop_last() =~= ls);
    lemma_entry_indices(ls);
    let idx = entry_indices(ls);
    assert forall|k: int| 0 <= k < idx.len() implies #[trigger] l2[idx[k]] == ls[idx[k]] by {}
    assert(entry_lines(l2) =~= entry_lines(ls).push(x));
}

proof fn lemma_url_of_line(url: Seq<char>, rest: Seq<char>)
    requires
        plain_url(url),
        rest.len() == 0 || is_white(rest[0]),
    ensures
        url_of(entry_marker() + url + rest) == url,
{
    let e = entry_marker() + url + rest;
    assert(e.take(2) =~= entry_marker());
    let s = url + rest;
    assert(e.skip(2) =~= s);
    assert(!is_white(s[0]));
    lemma_lead_count(s, true, 0);
    assert(s.skip(0) =~= s);
    assert forall|k: int| 0 <= k < url.len() implies is_white(#[trigger] s[k]) == false by {
        assert(s[k] == url[k]);
    }
    if rest.len() > 0 {
        assert(s[url.len() as int] == rest[0]);
    }
    lemma_lead_count(s, false, url.len() as int);
    assert(s.take(url.len() as int) =~= url);
}

proof fn lemma_new_line_url(url: Seq<char>, title: Option<Seq<char>>)
    requires
        plain_url(url),
    ensures
        url_of(strip_cr(entry_text(url, title))) == url,
        is_entry(strip_cr(entry_text(url, title))),
{
    let e = entry_text(url, title);
    match title {
        Some(t) => {
            let t2 = if t.len() > 0 && t.last() == '\r' {
                t.drop_last()
            } else {
                t
            };
            let rest = title_separator() + t2;
            assert(strip_cr(e) =~= entry_marker() + url + rest);
            assert(rest[0] == ' ');
            lemma_url_of_line(url, rest);
            assert((entry_marker() + url + rest).take(2) =~= entry_marker());
        },
        None => {
            assert(e.last() == url.last());
            assert(!is_white(url[url.len() - 1]));
            assert(strip_cr(e) == e);
            assert(e =~= entry_marker() + url + Seq::<char>::empty());
            lemma_url_of_line(url, Seq::<char>::empty());
            assert(e.take(2) =~= entry_marker());
        },
    }
}

/// Once a bookmark is added, its URL is a duplicate.
pub proof fn law_added_url_is_duplicate(content: Seq<char>, url: Seq<char>, title: Option<Seq<char>>)
    requires
        plain_url(url),
        single_line(entry_text(url, title)),
    ensures
        has_url(lines_of(appended(content, entry_text(url, title))), url),
{
    let e = entry_text(url, title);
    lemma_appended_lines(content, e);
    lemma_new_line_url(url, title);
    let ls = line_pieces(appended_base(content)).0;
    lemma_entry_push(ls, strip_cr(e));
    let k = entry_lines(ls).len() as int;
    assert(entry_lines(ls.push(strip_cr(e)))[k] == strip_cr(e));
}

proof fn lemma_first_match_exists(es: Seq<Seq<char>>, t: Seq<char>)
    ensures
        first_url_match(es, t) is Some <==> exists|k: int|
            0 <= k < es.len() && url_of(#[trigger] es[k]) == t,
        first_url_match(es, t) matches Some(k) ==> 0 <= k < es.len() && url_of(es[k]) == t,
    decreases es.len(),
{
    if es.len() > 0 {
        lemma_first_match_exists(es.drop_first(), t);
        if url_of(es[0]) != t {
            if exists|k: int| 0 <= k < es.len() && url_of(#[trigger] es[k]) == t {
                let k = choose|k: int| 0 <= k < es.len() && url_of(#[trigger] es[k]) == t;
                assert(es.drop_first()[k - 1] == es[k]);
            }
            if first_url_match(es.drop_first(), t) is Some {
                let j = first_url_match(es.drop_first(), t)->0;
                assert(es.drop_first()[j] == es[j + 1]);
            }
        }
    }
}

/// Removing a bookmark by URL (a target that is not a number) succeeds
/// exactly when the URL is a duplicate.
pub proof fn law_remove_by_url_iff_duplicate(target: Seq<char>, ls: Seq<Seq<char>>)
    requires
        parse_unsigned(target) is None,
    ensures
        removal_index(target, ls) is Some <==> has_url(ls, target),
{
    lemma_first_match_exists(entry_lines(ls), target);
}

/// Removing a bookmark just added to a non-empty file (one that does not end
/// in a bare carriage return and does not already hold the URL) gives back
/// the file's lines, written as the remove command writes them.
pub proof fn law_add_then_remove(content: Seq<char>, url: Seq<char>, title: Option<Seq<char>>)
    requires
        content.len() > 0,
        !has_suffix(content, seq!['\r']),
        plain_url(url),
        single_line(entry_text(url, title)),
        parse_unsigned(url) is None,
        !has_url(lines_of(content), url),
    ensures
        removal_index(url, lines_of(appended(content, entry_text(url, title)))) == Some(
            lines_of(content).len() as int,
        ),
        rewritten(
            lines_of(appended(content, entry_text(url, title))),
            lines_of(content).len() as int,
        ) == rejoined(lines_of(content)),
        has_suffix(content, seq!['\n']) && !has_suffix(content, seq!['\n', '\n']) && has_no_cr(
            content,
        ) ==> rewritten(
            lines_of(appended(content, entry_text(url, title))),
            lines_of(content).len() as int,
        ) == content,
        lines_of(appended(content, entry_text(url, title)))[lines_of(content).len() as int]
            == strip_cr(entry_text(url, title)),
        strip_marker(entry_text(url, title)) == url + (match title {
            Some(t) => title_separator() + t,
            None => Seq::<char>::empty(),
        }),
{
    let e = strip_cr(entry_text(url, title));
    let ls = lines_of(content);
    law_add_appends_one_line(content, url, title);
    lemma_new_line_url(url, title);
    lemma_entry_push(ls, e);
    let l2 = ls.push(e);
    let es = entry_lines(ls);
    let es2 = entry_lines(l2);
    assert forall|j: int| 0 <= j < es.len() implies url_of(#[trigger] es2[j]) != url by {
        assert(es2[j] == es[j]);
    }
    lemma_first_url_match(es2, url, es.len() as int);
    lemma_entry_indices(ls);
    assert(entry_indices(l2)[es.len() as int] == ls.len());
    assert(l2.remove(ls.len() as int) =~= ls);
    if has_suffix(content, seq!['\n']) && !has_suffix(content, seq!['\n', '\n']) && has_no_cr(
        content,
    ) {
        law_rejoined_is_text(content);
    }
    let et = entry_text(url, title);
    assert(et.take(2) =~= entry_marker());
    match title {
        Some(t) => {
            assert(et.skip(2) =~= url + (title_separator() + t));
        },
        None => {
            assert(et.skip(2) =~= url + Seq::<char>::empty());
        },
    }
}


/// `s` holds no carriage return.
pub open spec fn has_no_cr(s: Seq<char>) -> bool {
    forall|k: int| 0 <= k < s.len() ==> s[k] != '\r'
}

/// The lines `ls`, each followed by a line feed.
pub open spec fn terminated(ls: Seq<Seq<char>>) -> Seq<char>
    decreases ls.len(),
{
    if ls.len() == 0 {
        seq![]
    } else {
        terminated(ls.drop_last()) + ls.last() + seq!['\n']
    }
}

proof fn lemma_pieces_rebuild(s: Seq<char>)
    requires
        has_no_cr(s),
    ensures
        s == terminated(line_pieces(s).0) + line_pieces(s).1,
        has_no_cr(line_pieces(s).1),
        s.len() > 0 && s.last() == '\n' ==> line_pieces(s).1.len() == 0,
    decreases s.len(),
{
    if s.len() > 0 {
        let p = s.drop_last();
        assert(has_no_cr(p)) by {
            assert forall|k: int| 0 <= k < p.len() implies p[k] != '\r' by {
                assert(p[k] == s[k]);
            }
        }
        lemma_pieces_rebuild(p);
        let (done, cur) = line_pieces(p);
        assert(s =~= p.push(s.last()));
        if s.last() == '\n' {
            assert(strip_cr(cur) == cur) by {
                if cur.len() > 0 {
                    assert(cur[cur.len() - 1] != '\r');
                }
            }
            assert(done.push(cur).drop_last() =~= done);
            assert(terminated(done.push(cur)) + Seq::<char>::empty() =~= terminated(done) + cur
                + seq!['\n']);
        } else {
            assert(s.last() != '\r');
            assert(terminated(done) + cur.push(s.last()) =~= (terminated(done) + cur).push(
                s.last(),
            ));
            assert(has_no_cr(cur.push(s.last()))) by {
                assert forall|k: int| 0 <= k < cur.push(s.last()).len() implies cur.push(
                    s.last(),
                )[k] != '\r' by {
                    if k < cur.len() {
                        assert(cur.push(s.last())[k] == cur[k]);
                    }
                }
            }
        }
    } else {
        assert(terminated(seq![]) + Seq::<char>::empty() =~= s);
    }
}

proof fn lemma_terminated_join(ls: Seq<Seq<char>>)
    requires
        ls.len() > 0,
    ensures
        terminated(ls) == join_lines(ls) + seq!['\n'],
    decreases ls.len(),
{
    if ls.len() == 1 {
        assert(ls.drop_last() =~= Seq::<Seq<char>>::empty());
        assert(terminated(ls.drop_last()) =~= Seq::<char>::empty());
        assert(Seq::<char>::empty() + ls.last() =~= ls[0]);
    } else {
        lemma_terminated_join(ls.drop_last());
        assert(join_lines(ls.drop_last()) + seq!['\n'] + ls.last() + seq!['\n'] =~= join_lines(ls)
            + seq!['\n']);
    }
}

/// A file that ends with one line feed after a line and holds no carriage
/// return is written back by the remove command's rewriting exactly as it
/// is.
pub proof fn law_rejoined_is_text(content: Seq<char>)
    requires
        has_suffix(content, seq!['\n']),
        !has_suffix(content, seq!['\n', '\n']),
        has_no_cr(content),
    ensures
        rejoined(lines_of(content)) == content,
{
    let n = content.len();
    assert(content.skip(n - 1)[0] == content[n - 1]);
    lemma_pieces_rebuild(content);
    let (done, cur) = line_pieces(content);
    assert(lines_of(content) == done);
    assert(content == terminated(done) + cur);
    assert(content =~= terminated(done));
    assert(done.len() > 0);
    lemma_terminated_join(done);
    let j = join_lines(done);
    assert(content =~= j + seq!['\n']);
    if j.len() > 0 {
        assert(j.last() == content[n - 2]);
        if j.last() == '\n' {
            assert(content.skip(n - 2) =~= seq!['\n', '\n']);
        }
        assert(!has_suffix(j, seq!['\n'])) by {
            if has_suffix(j, seq!['\n']) {
                assert(j.skip(j.len() - 1)[0] == j.last());
            }
        }
    }
}

// ---------------------------------------------------------------------------
// Listing
// ---------------------------------------------------------------------------

/// The lines of the numbered list of `items`: the k-th (from 1) is two
/// spaces, the decimal notation of k, ". " and the k-th item.
pub open spec fn listed_lines(items: Seq<Seq<char>>) -> Seq<Seq<char>> {
    Seq::new(items.len(), |k: int| "  "@ + decimal((k + 1) as nat) + ". "@ + items[k])
}

proof fn lemma_numbered_lines(items: Seq<Seq<char>>)
    ensures
        numbered(items) == terminated(listed_lines(items)),
    decreases items.len(),
{
    reveal_strlit("\n");
    if items.len() > 0 {
        let rest = items.drop_last();
        lemma_numbered_lines(rest);
        assert(listed_lines(items).drop_last() =~= listed_lines(rest));
        assert(listed_lines(items).last() == "  "@ + decimal(items.len()) + ". "@ + items.last());
        assert("\n"@ =~= seq!['\n']);
    } else {
        assert(listed_lines(items) =~= Seq::<Seq<char>>::empty());
    }
}

proof fn lemma_terminated_pieces(ls: Seq<Seq<char>>)
    requires
        forall|i: int| 0 <= i < ls.len() ==> single_line(#[trigger] ls[i]) && has_no_cr(ls[i]),
    ensures
        line_pieces(terminated(ls)).0 == ls,
        line_pieces(terminated(ls)).1 == Seq::<char>::empty(),
    decreases ls.len(),
{
    if ls.len() > 0 {
        let rest = ls.drop_last();
        assert forall|i: int| 0 <= i < rest.len() implies single_line(#[trigger] rest[i])
            && has_no_cr(rest[i]) by {
            assert(rest[i] == ls[i]);
        }
        lemma_terminated_pieces(rest);
        let a = terminated(rest);
        let x = ls.last();
        assert(single_line(x) && has_no_cr(x));
        lemma_pieces_append(a, x);
        assert(Seq::<char>::empty() + x =~= x);
        lemma_pieces_newline(a + x);
        assert(terminated(ls) =~= (a + x).push('\n'));
        assert(strip_cr(x) == x) by {
            if x.len() > 0 {
                assert(x[x.len() - 1] != '\r');
            }
        }
        assert(rest.push(x) =~= ls);
    } else {
        assert(terminated(ls) =~= Seq::<char>::empty());
    }
}

proof fn lemma_numbered_line_plain(k: nat, item: Seq<char>)
    requires
        single_line(item),
        has_no_cr(item),
    ensures
        single_line("  "@ + decimal(k) + ". "@ + item),
        has_no_cr("  "@ + decimal(k) + ". "@ + item),
{
    reveal_strlit("  ");
    reveal_strlit(". ");
    lemma_decimal(k);
    let l = "  "@ + decimal(k) + ". "@ + item;
    let d = decimal(k);
    assert forall|j: int| 0 <= j < l.len() implies l[j] != '\n' && l[j] != '\r' by {
        if j < 2 {
        } else if j < 2 + d.len() {
            assert(l[j] == d[j - 2]);
            assert(is_digit(d[j - 2]));
        } else if j < 4 + d.len() {
        } else {
            assert(l[j] == item[j - 4 - d.len()]);
        }
    }
}

/// The list numbers the bookmarks from 1 in the file's order: its text is
/// the lines "  k. " followed by the k-th bookmark without its "- " marker,
/// for k from 1 to the number of bookmarks, each ending in a line feed, then
/// an empty line and the count.
pub proof fn law_list_numbers_bookmarks(ls: Seq<Seq<char>>)
    requires
        entry_contents(ls).len() > 0,
    ensures
        list_output(ls) == terminated(listed_lines(entry_contents(ls))) + "\n"@ + decimal(
            entry_contents(ls).len(),
        ) + " bookmark(s)"@,
        forall|k: int|
            1 <= k <= entry_contents(ls).len() ==> #[trigger] listed_lines(entry_contents(ls))[k
                - 1] == "  "@ + decimal(k as nat) + ". "@ + entry_contents(ls)[k - 1],
{
    lemma_numbered_lines(entry_contents(ls));
}

proof fn lemma_items_plain(ls: Seq<Seq<char>>)
    requires
        forall|i: int| 0 <= i < ls.len() ==> single_line(#[trigger] ls[i]) && has_no_cr(ls[i]),
    ensures
        forall|i: int|
            0 <= i < listed_lines(entry_contents(ls)).len() ==> single_line(
                #[trigger] listed_lines(entry_contents(ls))[i],
            ) && has_no_cr(listed_lines(entry_contents(ls))[i]),
{
    let items = entry_contents(ls);
    let ll = listed_lines(items);
    lemma_entry_indices(ls);
    assert forall|i: int| 0 <= i < items.len() implies single_line(#[trigger] items[i])
        && has_no_cr(items[i]) by {
        let l = ls[entry_indices(ls)[i]];
        assert(items[i] == strip_marker(l));
        assert(single_line(l) && has_no_cr(l));
        if is_entry(l) {
            assert forall|j: int| 0 <= j < l.skip(2).len() implies l.skip(2)[j] != '\n'
                && l.skip(2)[j] != '\r' by {
                assert(l.skip(2)[j] == l[j + 2]);
            }
        }
    }
    assert forall|i: int| 0 <= i < ll.len() implies single_line(#[trigger] ll[i]) && has_no_cr(
        ll[i],
    ) by {
        lemma_numbered_line_plain((i + 1) as nat, items[i]);
    }
}

proof fn lemma_count_line(n: nat)
    ensures
        single_line(decimal(n) + " bookmark(s)"@),
        (decimal(n) + " bookmark(s)"@).len() > 0,
{
    reveal_strlit(" bookmark(s)");
    lemma_decimal(n);
    let x = decimal(n) + " bookmark(s)"@;
    assert forall|j: int| 0 <= j < x.len() implies x[j] != '\n' by {
        if j < decimal(n).len() {
            assert(is_digit(decimal(n)[j]));
        }
    }
}

proof fn lemma_lines_after_terminated(ll: Seq<Seq<char>>, x: Seq<char>)
    requires
        line_pieces(terminated(ll)).0 == ll,
        line_pieces(terminated(ll)).1 == Seq::<char>::empty(),
        single_line(x),
        x.len() > 0,
    ensures
        lines_of(terminated(ll) + "\n"@ + x) == ll + seq![Seq::<char>::empty(), x],
{
    reveal_strlit("\n");
    let a = terminated(ll);
    assert(a + "\n"@ =~= a.push('\n'));
    lemma_pieces_newline(a);
    assert(strip_cr(Seq::<char>::empty()) =~= Seq::<char>::empty());
    lemma_pieces_append(a.push('\n'), x);
    assert(Seq::<char>::empty() + x =~= x);
    assert(ll.push(Seq::<char>::empty()).push(x) =~= ll + seq![Seq::<char>::empty(), x]);
}

/// For a file whose lines hold no carriage return, the lines of the list
/// output are exactly: for each k from 1, "  k. " and the k-th bookmark
/// without its marker; then an empty line and "n bookmark(s)".
pub proof fn law_list_lines(ls: Seq<Seq<char>>)
    requires
        entry_contents(ls).len() > 0,
        forall|i: int| 0 <= i < ls.len() ==> single_line(#[trigger] ls[i]) && has_no_cr(ls[i]),
    ensures
        lines_of(list_output(ls)) == listed_lines(entry_contents(ls)) + seq![
            Seq::<char>::empty(),
            decimal(entry_contents(ls).len()) + " bookmark(s)"@,
        ],
        forall|k: int|
            1 <= k <= entry_contents(ls).len() ==> #[trigger] lines_of(list_output(ls))[k - 1]
                == "  "@ + decimal(k as nat) + ". "@ + entry_contents(ls)[k - 1],
{
    let items = entry_contents(ls);
    let ll = listed_lines(items);
    let x = decimal(items.len()) + " bookmark(s)"@;
    lemma_numbered_lines(items);
    lemma_items_plain(ls);
    lemma_terminated_pieces(ll);
    lemma_count_line(items.len());
    lemma_lines_after_terminated(ll, x);
    assert(list_output(ls) == terminated(ll) + "\n"@ + x);
    assert forall|k: int| 1 <= k <= items.len() implies #[trigger] lines_of(list_output(ls))[k
        - 1] == "  "@ + decimal(k as nat) + ". "@ + items[k - 1] by {
        assert((ll + seq![Seq::<char>::empty(), x])[k - 1] == ll[k - 1]);
    }
}

// ---------------------------------------------------------------------------
// Search
// ---------------------------------------------------------------------------

proof fn lemma_search_hits_filter(es: Seq<Seq<char>>, q: Seq<char>)
    ensures
        search_hits(es, q) == es.filter(|e: Seq<char>| has_infix(lowercase(e), q)),
    decreases es.len(),
{
    reveal(Seq::filter);
    if es.len() > 0 {
        lemma_search_hits_filter(es.drop_last(), q);
    }
}

proof fn lemma_url_in_line(e: Seq<char>)
    requires
        is_entry(e),
    ensures
        has_infix(e, url_of(e)),
{
    let s = e.skip(2);
    assert(strip_marker(e) == s);
    let n = lead_count(s, true) as int;
    lemma_lead_count_le(s, true);
    let t = s.skip(n);
    if t.len() == 0 {
        assert(e.subrange(2, 2 + s.len() as int) =~= s);
        assert(occurs_at(e, url_of(e), 2));
    } else {
        let m = lead_count(t, false) as int;
        lemma_lead_count_le(t, false);
        assert(e.subrange(2 + n, 2 + n + m) =~= t.take(m));
        assert(occurs_at(e, url_of(e), 2 + n));
    }
}

proof fn lemma_ascii_infix(s: Seq<char>, p: Seq<char>)
    requires
        is_ascii_text(s),
        has_infix(s, p),
    ensures
        is_ascii_text(p),
        has_infix(lowercase(s), lowercase(p)),
{
    let i = choose|i: int| occurs_at(s, p, i);
    assert forall|j: int| 0 <= j < p.len() implies (p[j] as u32) < 0x80 by {
        assert(p[j] == s.subrange(i, i + p.len())[j]);
    }
    assert(ascii_lowercase(s).subrange(i, i + p.len()) =~= ascii_lowercase(p)) by {
        assert forall|j: int| 0 <= j < p.len() implies ascii_lowercase(s).subrange(
            i,
            i + p.len(),
        )[j] == ascii_lowercase(p)[j] by {
            assert(p[j] == s.subrange(i, i + p.len())[j]);
        }
    }
    assert(occurs_at(lowercase(s), lowercase(p), i));
}

/// Every ASCII bookmark line is found when searching for its own URL, in
/// any case.
pub proof fn law_search_finds_own_url(ls: Seq<Seq<char>>, i: int)
    requires
        0 <= i < entry_lines(ls).len(),
        is_ascii_text(entry_lines(ls)[i]),
    ensures
        search_hits(entry_lines(ls), lowercase(url_of(entry_lines(ls)[i]))).contains(
            entry_lines(ls)[i],
        ),
{
    let es = entry_lines(ls);
    let e = es[i];
    lemma_entry_indices(ls);
    assert(e == ls[entry_indices(ls)[i]]);
    lemma_url_in_line(e);
    lemma_ascii_infix(e, url_of(e));
    let q = lowercase(url_of(e));
    lemma_search_hits_filter(es, q);
    es.lemma_filter_contains(|x: Seq<char>| has_infix(lowercase(x), q), i);
}

/// The search hits are the bookmark lines whose whole lowercase text, URL
/// included, contains the lowercase query, in the file's order, and the
/// search output lists exactly those lines (or says that none match).
pub proof fn law_search_hits_are_matching_lines(query: Seq<char>, ls: Seq<Seq<char>>)
    ensures
        search_hits(entry_lines(ls), lowercase(query)) == entry_lines(ls).filter(
            |e: Seq<char>| has_infix(lowercase(e), lowercase(query)),
        ),
        search_output(query, ls) == (if entry_lines(ls).filter(
            |e: Seq<char>| has_infix(lowercase(e), lowercase(query)),
        ).len() == 0 {
            "No bookmarks matching \""@ + query + "\"."@
        } else {
            bulleted(
                entry_lines(ls).filter(|e: Seq<char>| has_infix(lowercase(e), lowercase(query))),
            ) + "\n"@ + decimal(
                entry_lines(ls).filter(
                    |e: Seq<char>| has_infix(lowercase(e), lowercase(query)),
                ).len(),
            ) + " result(s)"@
        }),
{
    lemma_search_hits_filter(entry_lines(ls), lowercase(query));
}

// ---------------------------------------------------------------------------
// Numbers
// ---------------------------------------------------------------------------

proof fn lemma_digit_char(d: nat)
    requires
        d < 10,
    ensures
        is_digit(digit_char(d)),
        (digit_char(d) as u32) - ('0' as u32) == d,
{
}

proof fn lemma_decimal(n: nat)
    ensures
        decimal(n).len() > 0,
        forall|k: int| 0 <= k < decimal(n).len() ==> is_digit(#[trigger] decimal(n)[k]),
        digits_value(decimal(n)) == n,
    decreases n,
{
    if n < 10 {
        lemma_digit_char(n);
        assert(n % 10 == n);
        assert(decimal(n).drop_last() =~= Seq::<char>::empty());
        assert(digits_value(Seq::<char>::empty()) == 0);
        assert(decimal(n).last() == digit_char(n));
    } else {
        lemma_decimal(n / 10);
        lemma_digit_char(n % 10);
        let d = decimal(n);
        assert(d.drop_last() =~= decimal(n / 10));
        assert(forall|k: int| 0 <= k < d.len() - 1 ==> d[k] == decimal(n / 10)[k]);
        assert(d.last() == digit_char(n % 10));
        assert(digits_value(d) == digits_value(decimal(n / 10)) * 10 + ((d.last() as u32) - (
        '0' as u32)) as nat);
        assert((n / 10) * 10 + n % 10 == n);
    }
}

/// The decimal notation of a `usize` parses back to it.
pub proof fn law_parse_decimal(n: usize)
    ensures
        parse_unsigned(decimal(n as nat)) == Some(n as nat),
{
    lemma_decimal(n as nat);
    let d = decimal(n as nat);
    assert(is_digit(d[0]));
    assert(unsigned_digits(d) == d);
}

/// Removing by the number under which the list shows a bookmark takes out
/// that bookmark's line, and the message names what the list showed.
pub proof fn law_remove_by_number(ls: Seq<Seq<char>>, n: usize)
    requires
        1 <= n <= entry_indices(ls).len(),
    ensures
        removal_index(decimal(n as nat), ls) == Some(entry_indices(ls)[n - 1]),
        strip_marker(ls[entry_indices(ls)[n - 1]]) == entry_contents(ls)[n - 1],
{
    law_parse_decimal(n);
}



// ---------------------------------------------------------------------------
// Labels
// ---------------------------------------------------------------------------

proof fn lemma_ascii_concat(a: Seq<char>, b: Seq<char>)
    requires
        is_ascii_text(a),
        is_ascii_text(b),
    ensures
        is_ascii_text(a + b),
        ascii_lowercase(a + b) == ascii_lowercase(a) + ascii_lowercase(b),
{
    assert forall|i: int| 0 <= i < (a + b).len() implies ((a + b)[i] as u32) < 0x80 by {
        if i < a.len() {
            assert((a + b)[i] == a[i]);
        } else {
            assert((a + b)[i] == b[i - a.len()]);
        }
    }
    assert(ascii_lowercase(a + b) =~= ascii_lowercase(a) + ascii_lowercase(b));
}

proof fn lemma_ascii_skip(s: Seq<char>, k: int)
    requires
        is_ascii_text(s),
        0 <= k <= s.len(),
    ensures
        is_ascii_text(s.skip(k)),
{
    assert forall|i: int| 0 <= i < s.skip(k).len() implies (s.skip(k)[i] as u32) < 0x80 by {
        assert(s.skip(k)[i] == s[k + i]);
    }
}

proof fn lemma_ascii_widths(s: Seq<char>)
    requires
        is_ascii_text(s),
    ensures
        byte_len(s) == s.len(),
        forall|n: int| 0 <= n <= s.len() ==> chars_in_bytes(s, n) == Some(n as nat),
    decreases s.len(),
{
    if s.len() > 0 {
        lemma_ascii_skip(s, 1);
        assert(s.skip(1) =~= s.drop_first());
        lemma_ascii_widths(s.drop_first());
        lemma_byte_len_first(s);
        assert((s[0] as u32) < 0x80);
        assert forall|n: int| 0 <= n <= s.len() implies chars_in_bytes(s, n) == Some(n as nat) by {
            if n > 0 {
                assert(chars_in_bytes(s.drop_first(), n - 1) == Some((n - 1) as nat));
            }
        }
    }
}

proof fn lemma_prefix_of_sum(s: Seq<char>, a: Seq<char>, b: Seq<char>)
    requires
        has_prefix(s, a + b),
    ensures
        has_prefix(s, a),
{
    assert(s.take(a.len() as int) =~= (a + b).take(a.len() as int));
    assert((a + b).take(a.len() as int) =~= a);
}

proof fn lemma_lowercase_prefix(t: Seq<char>, x: Seq<char>)
    requires
        is_ascii_text(t),
        is_ascii_text(x),
    ensures
        has_prefix(lowercase(t + x), lowercase(t)),
{
    lemma_ascii_concat(t, x);
    let l = ascii_lowercase(t) + ascii_lowercase(x);
    assert(l.take(ascii_lowercase(t).len() as int) =~= ascii_lowercase(t));
}

/// For ASCII text whose description reads "Title is ...", the title's byte
/// length falls on a character boundary of the description, and what follows
/// the title stays ASCII once its first letter is in uppercase.
proof fn lemma_ascii_rest(t: Seq<char>, d: Seq<char>)
    requires
        is_ascii_text(t),
        is_ascii_text(d),
        is_reworded(lowercase(t), lowercase(d)),
    ensures
        chars_in_bytes(d, byte_len(t) as int) == Some(t.len()),
        is_ascii_text(upper_first(reworded_rest(t, d))),
{
    reveal_strlit(" is ");
    reveal_strlit(" — ");
    lemma_ascii_widths(t);
    lemma_ascii_widths(d);
    let tl = lowercase(t);
    let dl = lowercase(d);
    if has_prefix(dl, tl + " is "@) {
    } else {
        assert(has_prefix(dl, tl + " — "@));
    }
    assert(dl.len() == d.len());
    assert(tl.len() == t.len());
    let after = d.skip(t.len() as int);
    lemma_ascii_skip(d, t.len() as int);
    let k = crate::text::lead_count(after, true);
    crate::text::lemma_lead_count_le(after, true);
    lemma_ascii_skip(after, k as int);
    let rest = trim_start(after);
    let r2 = reworded_rest(t, d);
    if has_prefix(rest, "is "@) {
        lemma_ascii_skip(rest, "is "@.len() as int);
    } else if has_prefix(rest, "— "@) {
        lemma_ascii_skip(rest, "— "@.len() as int);
    } else {
    }
    assert(is_ascii_text(r2));
    if r2.len() > 0 {
        lemma_ascii_skip(r2, 1);
        assert(r2.skip(1) =~= r2.drop_first());
        let c = r2[0];
        assert((c as u32) < 0x80);
        assert((ascii_upper(c) as u32) < 0x80);
        assert(is_ascii_text(seq![ascii_upper(c)]));
        lemma_ascii_concat(seq![ascii_upper(c)], r2.drop_first());
    } else {
        assert(upper_first(r2) =~= Seq::<char>::empty());
    }
}

/// Combining a title and a description: for ASCII text it is always defined;
/// there is a label exactly when there is a title or a description; without
/// a title the label is the description, without a description it is the
/// title; and with a title, the label begins with the title once both are
/// taken in lowercase.
pub proof fn law_label_begins_with_title(title: Option<Seq<char>>, description: Option<Seq<char>>)
    requires
        title matches Some(t) ==> is_ascii_text(t),
        description matches Some(d) ==> is_ascii_text(d),
    ensures
        !label_undefined(title, description),
        label_of(title, description) is None <==> title is None && description is None,
        title is None ==> label_of(title, description) == description,
        description is None ==> label_of(title, description) == title,
        title matches Some(t) ==> has_prefix(lowercase(label_of(title, description)->0), lowercase(t)),
{
    reveal_strlit(": ");
    assert(is_ascii_text(": "@));
    match (title, description) {
        (Some(t), Some(d)) => {
            let tl = lowercase(t);
            let dl = lowercase(d);
            lemma_lowercase_prefix(t, seq![]);
            assert(t + seq![] =~= t);
            if tl == dl {
            } else if has_title_prefix(tl, dl) {
                if has_prefix(dl, tl + " - "@) {
                    lemma_prefix_of_sum(dl, tl, " - "@);
                } else if has_prefix(dl, tl + ": "@) {
                    lemma_prefix_of_sum(dl, tl, ": "@);
                } else {
                    lemma_prefix_of_sum(dl, tl, " | "@);
                }
            } else if is_reworded(tl, dl) {
                lemma_ascii_rest(t, d);
                let u = upper_first(reworded_rest(t, d));
                lemma_ascii_concat(": "@, u);
                lemma_lowercase_prefix(t, ": "@ + u);
                assert(t + (": "@ + u) =~= t + ": "@ + u);
            } else {
                lemma_ascii_concat(": "@, d);
                lemma_lowercase_prefix(t, ": "@ + d);
                assert(t + (": "@ + d) =~= t + ": "@ + d);
            }
        },
        (Some(t), None) => {
            lemma_lowercase_prefix(t, seq![]);
            assert(t + seq![] =~= t);
        },
        _ => {},
    }
}


/// When the lowercase description begins with the lowercase title followed
/// by " - ", ": " or " | ", the two can always be combined and the label is
/// the description itself, unchanged.
pub proof fn law_separated_description_kept(t: Seq<char>, d: Seq<char>)
    requires
        has_prefix(lowercase(d), lowercase(t) + " - "@) || has_prefix(
            lowercase(d),
            lowercase(t) + ": "@,
        ) || has_prefix(lowercase(d), lowercase(t) + " | "@),
    ensures
        !label_undefined(Some(t), Some(d)),
        label_of(Some(t), Some(d)) == Some(d),
{
    reveal_strlit(" - ");
    reveal_strlit(": ");
    reveal_strlit(" | ");
    assert(lowercase(t) != lowercase(d)) by {
        if lowercase(t) == lowercase(d) {
            assert(lowercase(d).len() >= lowercase(t).len() + 2);
        }
    }
}

// ---------------------------------------------------------------------------
// HTML entities
// ---------------------------------------------------------------------------

proof fn lemma_replace_shrinks(s: Seq<char>, p: Seq<char>, r: Seq<char>)
    requires
        r.len() < p.len(),
    ensures
        replace_all(s, p, r).len() <= s.len(),
        !has_infix(s, p) ==> replace_all(s, p, r) == s,
        has_infix(s, p) ==> replace_all(s, p, r).len() < s.len(),
    decreases s.len(),
{
    if s.len() == 0 {
        assert(!has_infix(s, p)) by {
            if has_infix(s, p) {
                let i = choose|i: int| occurs_at(s, p, i);
            }
        }
    } else if has_prefix(s, p) {
        lemma_replace_shrinks(s.skip(p.len() as int), p, r);
        assert(occurs_at(s, p, 0)) by {
            assert(s.subrange(0, p.len() as int) =~= s.take(p.len() as int));
        }
    } else {
        let t = s.drop_first();
        lemma_replace_shrinks(t, p, r);
        if has_infix(s, p) {
            let i = choose|i: int| occurs_at(s, p, i);
            if i == 0 {
                assert(s.subrange(0, p.len() as int) =~= s.take(p.len() as int));
            } else {
                assert(t.subrange(i - 1, i - 1 + p.len()) =~= s.subrange(i, i + p.len()));
                assert(occurs_at(t, p, i - 1));
            }
        } else {
            assert(!has_infix(t, p)) by {
                if has_infix(t, p) {
                    let i = choose|i: int| occurs_at(t, p, i);
                    assert(s.subrange(i + 1, i + 1 + p.len()) =~= t.subrange(i, i + p.len()));
                    assert(occurs_at(s, p, i + 1));
                }
            }
            assert(seq![s[0]] + t =~= s);
        }
    }
}

proof fn lemma_width_bounds(s: Seq<char>)
    ensures
        s.len() <= byte_len(s) <= 4 * s.len(),
    decreases s.len(),
{
    if s.len() > 0 {
        lemma_width_bounds(s.drop_last());
    }
}

proof fn lemma_replace_bytes(s: Seq<char>, p: Seq<char>, r: Seq<char>)
    requires
        p.len() > 0,
        byte_len(r) <= byte_len(p),
    ensures
        byte_len(replace_all(s, p, r)) <= byte_len(s),
    decreases s.len(),
{
    if s.len() > 0 {
        if has_prefix(s, p) {
            let rest = s.skip(p.len() as int);
            lemma_replace_bytes(rest, p, r);
            lemma_byte_len_concat(r, replace_all(rest, p, r));
            lemma_byte_len_concat(p, rest);
            assert(p + rest =~= s);
        } else {
            let rest = s.drop_first();
            lemma_replace_bytes(rest, p, r);
            lemma_byte_len_concat(seq![s[0]], replace_all(rest, p, r));
            lemma_byte_len_first(s);
            let one = seq![s[0]];
            assert(one.drop_last() =~= Seq::<char>::empty());
            assert(byte_len(one.drop_last()) == 0);
            assert(one.last() == s[0]);
            assert(byte_len(one) == utf8_width(s[0]));
            assert(replace_all(s, p, r) == seq![s[0]] + replace_all(rest, p, r));
        }
    } else {
        assert(replace_all(s, p, r) =~= Seq::<char>::empty());
    }
}

/// One decoding step in bytes: an entity of `e.len()` characters becomes at
/// most a quarter as many characters, each at most four bytes long.
proof fn lemma_decode_step_bytes(s: Seq<char>, e: Seq<char>, c: Seq<char>)
    requires
        e.len() > 0,
        4 * c.len() <= e.len(),
    ensures
        byte_len(replace_all(s, e, c)) <= byte_len(s),
{
    lemma_width_bounds(e);
    lemma_width_bounds(c);
    lemma_replace_bytes(s, e, c);
}

/// One decoding step: `s` unchanged when the entity does not occur in it,
/// shorter otherwise.
proof fn lemma_decode_step(s: Seq<char>, e: Seq<char>, c: Seq<char>)
    requires
        c.len() < e.len(),
    ensures
        replace_all(s, e, c).len() <= s.len(),
        replace_all(s, e, c) == s <==> !has_infix(s, e),
        replace_all(s, e, c) != s ==> replace_all(s, e, c).len() < s.len(),
{
    lemma_replace_shrinks(s, e, c);
}

/// Decoding HTML entities never makes a text longer, in characters or in
/// UTF-8 bytes, and leaves it unchanged exactly when none of the eight
/// entities occurs in it.
pub proof fn law_decoding_shrinks(s: Seq<char>)
    ensures
        decode_entities(s).len() <= s.len(),
        byte_len(decode_entities(s)) <= byte_len(s),
        decode_entities(s) == s <==> !has_infix(s, "&amp;"@) && !has_infix(s, "&lt;"@)
            && !has_infix(s, "&gt;"@) && !has_infix(s, "&#39;"@) && !has_infix(s, "&quot;"@)
            && !has_infix(s, "&#x27;"@) && !has_infix(s, "&ndash;"@) && !has_infix(
            s,
            "&mdash;"@,
        ),
{
    reveal_strlit("&amp;");
    reveal_strlit("&lt;");
    reveal_strlit("&gt;");
    reveal_strlit("&#39;");
    reveal_strlit("&quot;");
    reveal_strlit("&#x27;");
    reveal_strlit("&ndash;");
    reveal_strlit("&mdash;");
    reveal_strlit("&");
    reveal_strlit("<");
    reveal_strlit(">");
    reveal_strlit("'");
    reveal_strlit("\"");
    reveal_strlit("\u{2013}");
    reveal_strlit("\u{2014}");
    let s1 = replace_all(s, "&amp;"@, "&"@);
    let s2 = replace_all(s1, "&lt;"@, "<"@);
    let s3 = replace_all(s2, "&gt;"@, ">"@);
    let s4 = replace_all(s3, "&#39;"@, "'"@);
    let s5 = replace_all(s4, "&quot;"@, "\""@);
    let s6 = replace_all(s5, "&#x27;"@, "'"@);
    let s7 = replace_all(s6, "&ndash;"@, "\u{2013}"@);
    let s8 = replace_all(s7, "&mdash;"@, "\u{2014}"@);
    lemma_decode_step(s, "&amp;"@, "&"@);
    lemma_decode_step(s1, "&lt;"@, "<"@);
    lemma_decode_step(s2, "&gt;"@, ">"@);
    lemma_decode_step(s3, "&#39;"@, "'"@);
    lemma_decode_step(s4, "&quot;"@, "\""@);
    lemma_decode_step(s5, "&#x27;"@, "'"@);
    lemma_decode_step(s6, "&ndash;"@, "\u{2013}"@);
    lemma_decode_step(s7, "&mdash;"@, "\u{2014}"@);
    lemma_decode_step_bytes(s, "&amp;"@, "&"@);
    lemma_decode_step_bytes(s1, "&lt;"@, "<"@);
    lemma_decode_step_bytes(s2, "&gt;"@, ">"@);
    lemma_decode_step_bytes(s3, "&#39;"@, "'"@);
    lemma_decode_step_bytes(s4, "&quot;"@, "\""@);
    lemma_decode_step_bytes(s5, "&#x27;"@, "'"@);
    lemma_decode_step_bytes(s6, "&ndash;"@, "\u{2013}"@);
    lemma_decode_step_bytes(s7, "&mdash;"@, "\u{2014}"@);
    assert(decode_entities(s) == s8);
    if s8 == s {
        assert(s1 == s);
        assert(s2 == s);
        assert(s3 == s);
        assert(s4 == s);
        assert(s5 == s);
        assert(s6 == s);
        assert(s7 == s);
    }
    if !has_infix(s, "&amp;"@) && !has_infix(s, "&lt;"@) && !has_infix(s, "&gt;"@) && !has_infix(
        s,
        "&#39;"@,
    ) && !has_infix(s, "&quot;"@) && !has_infix(s, "&#x27;"@) && !has_infix(s, "&ndash;"@)
        && !has_infix(s, "&mdash;"@) {
        assert(s1 == s);
        assert(s2 == s);
        assert(s3 == s);
        assert(s4 == s);
        assert(s5 == s);
        assert(s6 == s);
        assert(s7 == s);
        assert(s8 == s);
    }
}


// ---------------------------------------------------------------------------
// Descriptions
// ---------------------------------------------------------------------------

/// The description that one search found: its content trimmed and decoded,
/// when something is left; nothing when the search found no tag.
pub open spec fn found_description(g: Option<Option<Seq<char>>>) -> Option<Seq<char>> {
    match g {
        Some(Some(c)) => cleaned_text(c),
        _ => None,
    }
}

/// `a` when it holds something, else `b`.
pub open spec fn or_else(a: Option<Seq<char>>, b: Option<Seq<char>>) -> Option<Seq<char>> {
    if a is Some {
        a
    } else {
        b
    }
}

/// When the four description searches run, a page's description is the first
/// non-empty, trimmed and decoded content that they find, in this order: an
/// og:description tag, the same with its content first, a description tag,
/// the same with its content first.
pub proof fn law_description_first_found(html: Seq<char>)
    requires
        regex_group(OG_DESCRIPTION_PATTERN@, html) is Some,
        regex_group(OG_DESCRIPTION_REVERSED_PATTERN@, html) is Some,
        regex_group(META_DESCRIPTION_PATTERN@, html) is Some,
        regex_group(META_DESCRIPTION_REVERSED_PATTERN@, html) is Some,
    ensures
        description_of(html) == or_else(
            found_description(regex_group(OG_DESCRIPTION_PATTERN@, html)),
            or_else(
                found_description(regex_group(OG_DESCRIPTION_REVERSED_PATTERN@, html)),
                or_else(
                    found_description(regex_group(META_DESCRIPTION_PATTERN@, html)),
                    found_description(regex_group(META_DESCRIPTION_REVERSED_PATTERN@, html)),
                ),
            ),
        ),
{
}

// ---------------------------------------------------------------------------
// Paragraphs
// ---------------------------------------------------------------------------

proof fn lemma_byte_len_concat(a: Seq<char>, b: Seq<char>)
    ensures
        byte_len(a + b) == byte_len(a) + byte_len(b),
    decreases b.len(),
{
    if b.len() == 0 {
        assert(a + b =~= a);
    } else {
        lemma_byte_len_concat(a, b.drop_last());
        assert((a + b).drop_last() =~= a + b.drop_last());
        assert((a + b).last() == b.last());
    }
}

proof fn lemma_lead_bytes(s: Seq<char>, limit: int)
    requires
        limit >= 1,
    ensures
        byte_len(s.take(chars_starting_before(s, limit) as int)) <= limit + 3,
    decreases s.len(),
{
    let k = chars_starting_before(s, limit);
    if s.len() == 0 {
        assert(s.take(0) =~= Seq::<char>::empty());
    } else {
        let w = utf8_width(s[0]);
        let rest = s.drop_first();
        let k2 = chars_starting_before(rest, limit - w);
        assert(k == k2 + 1);
        let t = s.take(k as int);
        lemma_chars_starting_before_bound(rest, limit - w);
        assert(t.drop_first() =~= rest.take(k2 as int));
        lemma_byte_len_first(t);
        if limit - w >= 1 {
            lemma_lead_bytes(rest, limit - w);
        } else {
            assert(k2 == 0);
            assert(rest.take(0) =~= Seq::<char>::empty());
        }
    }
}

proof fn lemma_first_paragraph_short(ls: Seq<Seq<char>>)
    ensures
        first_paragraph(ls) matches Some(p) ==> byte_len(p) <= 126,
    decreases ls.len(),
{
    if ls.len() > 0 {
        let t = trim(ls[0]);
        if skipped_line(t) {
            lemma_first_paragraph_short(ls.drop_first());
        } else if byte_len(t) > 120 {
            let k = chars_starting_before(t, 120);
            lemma_lead_bytes(t, 120);
            reveal_strlit("...");
            lemma_byte_len_concat(t.take(k as int), "..."@);
            assert(byte_len("..."@) == 3) by {
                reveal_strlit("...");
                reveal_with_fuel(byte_len, 4);
                let d = "..."@;
                assert(d.drop_last().drop_last().drop_last() =~= Seq::<char>::empty());
                assert(d.drop_last().drop_last() =~= seq!['.']);
                assert(d.drop_last() =~= seq!['.', '.']);
            }
        }
    }
}

/// The paragraph taken from a page's text is at most 126 bytes long: a
/// longer one is cut after the character that begins before byte 120.
pub proof fn law_paragraph_is_short(content: Seq<char>)
    ensures
        first_paragraph(lines_of(content)) matches Some(p) ==> byte_len(p) <= 126,
{
    lemma_first_paragraph_short(lines_of(content));
}

/// `c` is where a paragraph `t` of more than 120 bytes is cut: after the
/// last character that begins before byte 120, which ends between byte 120
/// and byte 123.
pub open spec fn cut_point(t: Seq<char>, c: int) -> bool {
    1 <= c <= t.len() && byte_len(t.take(c - 1)) < 120 && 120 <= byte_len(t.take(c)) <= 123
}

proof fn lemma_chars_starting_before_cut(s: Seq<char>, limit: int)
    requires
        limit >= 1,
    ensures
        s.len() > 0 ==> chars_starting_before(s, limit) >= 1 && byte_len(
            s.take(chars_starting_before(s, limit) - 1),
        ) < limit,
        byte_len(s) >= limit ==> byte_len(s.take(chars_starting_before(s, limit) as int)) >= limit,
    decreases s.len(),
{
    if s.len() > 0 {
        let c = chars_starting_before(s, limit);
        let w = utf8_width(s[0]);
        let rest = s.drop_first();
        let c2 = chars_starting_before(rest, limit - w);
        assert(c == c2 + 1);
        lemma_chars_starting_before_bound(rest, limit - w);
        lemma_byte_len_first(s);
        if limit - w >= 1 {
            lemma_chars_starting_before_cut(rest, limit - w);
        }
        if c2 == 0 {
            assert(s.take(0) =~= Seq::<char>::empty());
        } else {
            let t = s.take(c2 as int);
            assert(t.drop_first() =~= rest.take(c2 - 1));
            lemma_byte_len_first(t);
        }
        let u = s.take(c as int);
        assert(u.drop_first() =~= rest.take(c2 as int));
        lemma_byte_len_first(u);
        if c2 == 0 {
            assert(rest.take(0) =~= Seq::<char>::empty());
        }
    }
}

proof fn lemma_shortened_cut(t: Seq<char>)
    requires
        byte_len(t) > 120,
    ensures
        cut_point(t, chars_starting_before(t, 120) as int),
        shortened(t) == t.take(chars_starting_before(t, 120) as int) + "..."@,
{
    assert(t.len() > 0) by {
        if t.len() == 0 {
            assert(byte_len(t) == 0);
        }
    }
    lemma_chars_starting_before_bound(t, 120);
    lemma_chars_starting_before_cut(t, 120);
    lemma_lead_bytes(t, 120);
}

/// Line `k` of `ls` is the first that, trimmed, is not skipped.
spec fn first_unskipped(ls: Seq<Seq<char>>, k: int) -> bool {
    &&& 0 <= k < ls.len()
    &&& !skipped_line(trim(ls[k]))
    &&& forall|j: int| 0 <= j < k ==> #[trigger] skipped_line(trim(ls[j]))
}

/// `p` is the paragraph made of the trimmed line `t`: `t` itself when it is
/// at most 120 bytes long, else `t` cut at its cut point with "..." appended.
pub open spec fn paragraph_from(t: Seq<char>, p: Seq<char>) -> bool {
    &&& byte_len(t) <= 120 ==> p == t
    &&& byte_len(t) > 120 ==> exists|c: int| #[trigger] cut_point(t, c) && p == t.take(c) + "..."@
}

proof fn lemma_first_paragraph_direct(ls: Seq<Seq<char>>)
    ensures
        first_paragraph(ls) is None <==> forall|k: int|
            0 <= k < ls.len() ==> #[trigger] skipped_line(trim(ls[k])),
        first_paragraph(ls) matches Some(p) ==> exists|k: int|
            #[trigger] first_unskipped(ls, k) && paragraph_from(trim(ls[k]), p),
    decreases ls.len(),
{
    if ls.len() > 0 {
        let t = trim(ls[0]);
        let rest = ls.drop_first();
        lemma_first_paragraph_direct(rest);
        assert forall|k: int| 1 <= k < ls.len() implies ls[k] == rest[k - 1] by {}
        if skipped_line(t) {
            if first_paragraph(rest) is None {
                assert forall|k: int| 0 <= k < ls.len() implies #[trigger] skipped_line(
                    trim(ls[k]),
                ) by {
                    if k > 0 {
                        assert(skipped_line(trim(rest[k - 1])));
                    }
                }
            } else {
                let p = first_paragraph(rest)->0;
                let k = choose|k: int| #[trigger]
                    first_unskipped(rest, k) && paragraph_from(trim(rest[k]), p);
                assert(ls[k + 1] == rest[k]);
                assert forall|j: int| 0 <= j < k + 1 implies #[trigger] skipped_line(
                    trim(ls[j]),
                ) by {
                    if j > 0 {
                        assert(ls[j] == rest[j - 1]);
                        assert(skipped_line(trim(rest[j - 1])));
                    }
                }
                assert(first_unskipped(ls, k + 1));
            }
        } else {
            if byte_len(t) > 120 {
                lemma_shortened_cut(t);
                let c = chars_starting_before(t, 120) as int;
                assert(cut_point(t, c));
            }
            assert(first_unskipped(ls, 0));
        }
    }
}

proof fn lemma_skipped_explicit(t: Seq<char>)
    ensures
        skipped_line(t) == (t.len() == 0 || has_prefix(t, "#"@) || has_prefix(t, "["@)
            || has_prefix(t, "!["@) || byte_len(t) <= 20),
{
    reveal_strlit("[![");
    reveal_strlit("[");
    reveal_strlit("![");
    if has_prefix(t, "[!["@) {
        assert("[!["@ =~= "["@ + "!["@);
        lemma_prefix_of_sum(t, "["@, "!["@);
    }
}

/// The trimmed line `t` does not read as a paragraph: it is empty, begins
/// with '#', '[' or '![', or is at most 20 bytes long.
pub open spec fn not_a_paragraph(t: Seq<char>) -> bool {
    t.len() == 0 || has_prefix(t, "#"@) || has_prefix(t, "["@) || has_prefix(t, "!["@) || byte_len(
        t,
    ) <= 20
}

/// Line `k` of `ls` is the first that, trimmed, reads as a paragraph: it is
/// not empty, does not begin with '#', '[' or '![', and is longer than 20
/// bytes, while every line before it, trimmed, fails one of these.
pub open spec fn first_kept_line(ls: Seq<Seq<char>>, k: int) -> bool {
    &&& 0 <= k < ls.len()
    &&& !not_a_paragraph(trim(ls[k]))
    &&& forall|j: int| 0 <= j < k ==> #[trigger] not_a_paragraph(trim(ls[j]))
}

/// The paragraph taken from a page's text, in full: there is none exactly
/// when every line, trimmed, is empty, begins with '#', '[' or '![', or is at
/// most 20 bytes long; otherwise it comes from the first line that, trimmed,
/// is none of these (so never from a heading): that line whole when it is at
/// most 120 bytes long, else cut after the last character that begins
/// before byte 120, with "..." appended.
pub proof fn law_first_paragraph_direct(content: Seq<char>)
    ensures
        first_paragraph(lines_of(content)) is None <==> forall|k: int|
            0 <= k < lines_of(content).len() ==> #[trigger] not_a_paragraph(
                trim(lines_of(content)[k]),
            ),
        first_paragraph(lines_of(content)) matches Some(p) ==> exists|k: int|
            #[trigger] first_kept_line(lines_of(content), k) && paragraph_from(
                trim(lines_of(content)[k]),
                p,
            ),
{
    let ls = lines_of(content);
    lemma_first_paragraph_direct(ls);
    assert forall|k: int| 0 <= k < ls.len() implies skipped_line(trim(ls[k])) == not_a_paragraph(
        trim(ls[k]),
    ) by {
        lemma_skipped_explicit(trim(ls[k]));
    }
    if first_paragraph(ls) is Some {
        let p = first_paragraph(ls)->0;
        let k = choose|k: int| #[trigger] first_unskipped(ls, k) && paragraph_from(trim(ls[k]), p);
        assert forall|j: int| 0 <= j < k implies #[trigger] not_a_paragraph(trim(ls[j])) by {
            assert(skipped_line(trim(ls[j])));
        }
        assert(first_kept_line(ls, k));
    }
}

// ---------------------------------------------------------------------------
// Moving through the table
// ---------------------------------------------------------------------------

proof fn lemma_filter_positions(bs: Seq<(Seq<char>, Seq<char>, int)>, q: Seq<char>)
    ensures
        forall|k: int|
            0 <= k < filter_indices(bs, q).len() ==> 0 <= #[trigger] filter_indices(bs, q)[k]
                < bs.len(),
        forall|k: int, m: int|
            0 <= k < m < filter_indices(bs, q).len() ==> #[trigger] filter_indices(bs, q)[k]
                < #[trigger] filter_indices(bs, q)[m],
        forall|i: int|
            0 <= i < bs.len() ==> (#[trigger] filter_indices(bs, q).contains(i) <==> (q.len() == 0
                || has_infix(lowercase(bs[i].0), q) || has_infix(lowercase(bs[i].1), q))),
    decreases bs.len(),
{
    if bs.len() > 0 {
        let rest = bs.drop_last();
        lemma_filter_positions(rest, q);
        let fr = filter_indices(rest, q);
        let f = filter_indices(bs, q);
        assert forall|i: int| 0 <= i < rest.len() implies rest[i] == bs[i] by {}
        assert forall|i: int|
            0 <= i < bs.len() implies (#[trigger] f.contains(i) <==> (q.len() == 0 || has_infix(
                lowercase(bs[i].0),
                q,
            ) || has_infix(lowercase(bs[i].1), q))) by {
            if i < bs.len() - 1 {
                if f.contains(i) && !fr.contains(i) {
                    let k = choose|k: int| 0 <= k < f.len() && f[k] == i;
                    assert(f =~= fr.push(bs.len() - 1));
                    assert(k < fr.len());
                    assert(fr[k] == i);
                }
                if fr.contains(i) {
                    let k = choose|k: int| 0 <= k < fr.len() && fr[k] == i;
                    if f != fr {
                        assert(f =~= fr.push(bs.len() - 1));
                        assert(f[k] == i);
                    }
                }
            } else {
                if f.contains(i) && f =~= fr {
                    let k = choose|k: int| 0 <= k < f.len() && f[k] == i;
                    assert(fr[k] < rest.len());
                }
                if f != fr {
                    assert(f =~= fr.push(bs.len() - 1));
                    assert(f[fr.len() as int] == i);
                }
            }
        }
    }
}

/// What the browser shows for a query: the positions, in order and each
/// once, of exactly the bookmarks for which the lowercase query is empty or
/// occurs in the bookmark's lowercase URL or in its lowercase label.
pub proof fn law_filter_shows_matches(bs: Seq<(Seq<char>, Seq<char>, int)>, query: Seq<char>)
    ensures
        forall|k: int|
            0 <= k < filter_indices(bs, lowercase(query)).len() ==> 0 <= #[trigger] filter_indices(
                bs,
                lowercase(query),
            )[k] < bs.len(),
        forall|k: int, m: int|
            0 <= k < m < filter_indices(bs, lowercase(query)).len() ==> #[trigger] filter_indices(
                bs,
                lowercase(query),
            )[k] < #[trigger] filter_indices(bs, lowercase(query))[m],
        forall|i: int|
            0 <= i < bs.len() ==> (#[trigger] filter_indices(bs, lowercase(query)).contains(i) <==> (
            lowercase(query).len() == 0 || has_infix(lowercase(bs[i].0), lowercase(query))
                || has_infix(lowercase(bs[i].1), lowercase(query)))),
{
    lemma_filter_positions(bs, lowercase(query));
}

/// In a consistent browser state, a bookmark is among the shown rows exactly
/// when the lowercase query is empty or occurs in its lowercase URL or its
/// lowercase label; the rows keep the file's order.
pub proof fn law_shown_rows_match_query(v: AppView)
    requires
        consistent(v),
    ensures
        forall|i: int|
            0 <= i < v.bookmarks.len() ==> (#[trigger] v.filtered.contains(i) <==> (lowercase(
                v.query,
            ).len() == 0 || has_infix(lowercase(v.bookmarks[i].0), lowercase(v.query))
                || has_infix(lowercase(v.bookmarks[i].1), lowercase(v.query)))),
        forall|k: int, m: int|
            0 <= k < m < v.filtered.len() ==> #[trigger] v.filtered[k] < #[trigger] v.filtered[m],
{
    lemma_filter_positions(v.bookmarks, lowercase(v.query));
}

/// Keys change neither the bookmarks nor the file's path; only a finished
/// deletion or a reload does.
pub proof fn law_keys_keep_bookmarks(v: AppView, key: Key)
    ensures
        after_key(v, key).bookmarks == v.bookmarks,
        after_key(v, key).path == v.path,
{
}

/// Every key keeps the state consistent: the shown rows are the bookmarks
/// that the query lets through, and the selection is one of them.
pub proof fn law_keys_keep_consistency(v: AppView, key: Key)
    requires
        consistent(v),
    ensures
        consistent(after_key(v, key)),
{
}

/// Moving down and then up returns to the same row, and so does moving up
/// and then down.
pub proof fn law_next_previous(sel: int, n: nat)
    requires
        0 <= sel < n,
    ensures
        previous_row(next_row(Some(sel), n), n) == Some(sel),
        next_row(previous_row(Some(sel), n), n) == Some(sel),
{
}

} // verus!
