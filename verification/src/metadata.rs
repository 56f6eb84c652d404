//! A bookmark's label from page metadata: the title and description found in
//! a page's HTML, the fields of a reader service's response for pages that
//! need a browser, and how a title and a description are combined.

use vstd::prelude::*;

use crate::bookmarks::opt_view;
use crate::text::{
    byte_len, byte_len_exceeds, char_to_upper, chars_of, ends_with, has_prefix, has_suffix,
    lines_of, lowercase, push_all, push_text, replace_all, replace_seq, split_lines, starts_with,
    str_byte_len, string_of, subvec, to_lower, trim, trim_start, trimmed, trimmed_start, uppercase,
    utf8_width, vec_eq,
};

verus! {

// ---------------------------------------------------------------------------
// Regular expressions
// ---------------------------------------------------------------------------

/// The outcome of searching `text` with the regular expression `pattern` and
/// reading its first capture group, as the `regex` crate computes it: `None`
/// when the pattern does not compile or the group takes no part in the match,
/// `Some(None)` when nothing matches, `Some(Some(g))` for the text of the
/// group in the leftmost match.
pub uninterp spec fn regex_group(pattern: Seq<char>, text: Seq<char>) -> Option<Option<Seq<char>>>;

/// The view of an optional optional string.
pub open spec fn opt_opt_view(o: Option<Option<String>>) -> Option<Option<Seq<char>>> {
    match o {
        None => None,
        Some(None) => Some(None),
        Some(Some(s)) => Some(Some(s@)),
    }
}

/// `regex::Regex::new(pattern)`, then `captures(text)` and `get(1)` on the
/// captures. The result is named by `regex_group`; nothing is claimed of
/// which text the expression matches.
#[verifier::external_body]
fn first_group(pattern: &str, text: &str) -> (r: Option<Option<String>>)
    ensures
        opt_opt_view(r) == regex_group(pattern@, text@),
{
    let re = match regex::Regex::new(pattern) {
        Ok(re) => re,
        Err(_) => return None,
    };
    match re.captures(text) {
        None => Some(None),
        Some(caps) => match caps.get(1) {
            None => None,
            Some(m) => Some(Some(m.as_str().to_string())),
        },
    }
}

/// The text of a page's `<title>` element, any case, with its attributes.
pub const TITLE_PATTERN: &'static str = r"(?i)<title[^>]*>([\s\S]*?)</title>";

/// The content of a `<meta property="og:description" content="...">` tag.
pub const OG_DESCRIPTION_PATTERN: &'static str =
    r#"(?i)<meta\s[^>]*property\s*=\s*"og:description"[^>]*content\s*=\s*"([^"]*)"[^>]*/?\s*>"#;

/// The content of an og:description tag that names its content first.
pub const OG_DESCRIPTION_REVERSED_PATTERN: &'static str =
    r#"(?i)<meta\s[^>]*content\s*=\s*"([^"]*)"[^>]*property\s*=\s*"og:description"[^>]*/?\s*>"#;

/// The content of a `<meta name="description" content="...">` tag.
pub const META_DESCRIPTION_PATTERN: &'static str =
    r#"(?i)<meta\s[^>]*name\s*=\s*"description"[^>]*content\s*=\s*"([^"]*)"[^>]*/?\s*>"#;

/// The content of a description tag that names its content first.
pub const META_DESCRIPTION_REVERSED_PATTERN: &'static str =
    r#"(?i)<meta\s[^>]*content\s*=\s*"([^"]*)"[^>]*name\s*=\s*"description"[^>]*/?\s*>"#;

// ---------------------------------------------------------------------------
// HTML entities
// ---------------------------------------------------------------------------

/// `s` with the entities `&amp;`, `&lt;`, `&gt;`, `&#39;`, `&quot;`, `&#x27;`,
/// `&ndash;` and `&mdash;` decoded, one entity after the other, each
/// replaced everywhere before the next.
pub open spec fn decode_entities(s: Seq<char>) -> Seq<char> {
    let s = replace_all(s, "&amp;"@, "&"@);
    let s = replace_all(s, "&lt;"@, "<"@);
    let s = replace_all(s, "&gt;"@, ">"@);
    let s = replace_all(s, "&#39;"@, "'"@);
    let s = replace_all(s, "&quot;"@, "\""@);
    let s = replace_all(s, "&#x27;"@, "'"@);
    let s = replace_all(s, "&ndash;"@, "\u{2013}"@);
    replace_all(s, "&mdash;"@, "\u{2014}"@)
}

fn replace_text(s: &Vec<char>, pat: &str, rep: &str) -> (r: Vec<char>)
    requires
        pat@.len() > 0,
    ensures
        r@ == replace_all(s@, pat@, rep@),
{
    let p = chars_of(pat);
    let q = chars_of(rep);
    replace_seq(s, &p, &q)
}

fn decode_vec(s: &Vec<char>) -> (r: Vec<char>)
    ensures
        r@ == decode_entities(s@),
{
    proof {
        reveal_strlit("&amp;");
        reveal_strlit("&lt;");
        reveal_strlit("&gt;");
        reveal_strlit("&#39;");
        reveal_strlit("&quot;");
        reveal_strlit("&#x27;");
        reveal_strlit("&ndash;");
        reveal_strlit("&mdash;");
    }
    let s = replace_text(s, "&amp;", "&");
    let s = replace_text(&s, "&lt;", "<");
    let s = replace_text(&s, "&gt;", ">");
    let s = replace_text(&s, "&#39;", "'");
    let s = replace_text(&s, "&quot;", "\"");
    let s = replace_text(&s, "&#x27;", "'");
    let s = replace_text(&s, "&ndash;", "\u{2013}");
    replace_text(&s, "&mdash;", "\u{2014}")
}

/// `s` with its HTML entities decoded.
pub fn decode_html_entities(s: &str) -> (r: String)
    ensures
        r@ == decode_entities(s@),
{
    let cs = chars_of(s);
    let d = decode_vec(&cs);
    string_of(&d)
}

// ---------------------------------------------------------------------------
// Title and description
// ---------------------------------------------------------------------------

/// A captured text, trimmed and decoded, when something is left of it.
pub open spec fn cleaned_text(c: Seq<char>) -> Option<Seq<char>> {
    let d = decode_entities(trim(c));
    if d.len() == 0 {
        None
    } else {
        Some(d)
    }
}

/// The title for the outcome `g` of searching a page for its title.
pub open spec fn title_from_group(g: Option<Option<Seq<char>>>) -> Option<Seq<char>> {
    match g {
        Some(Some(c)) => cleaned_text(c),
        _ => None,
    }
}

fn cleaned(c: &str) -> (r: Option<String>)
    ensures
        opt_view(r) == cleaned_text(c@),
{
    let cs = chars_of(c);
    let t = trimmed(&cs);
    let d = decode_vec(&t);
    if d.len() == 0 {
        None
    } else {
        Some(string_of(&d))
    }
}

/// The title for the outcome of searching a page with `TITLE_PATTERN`.
pub fn title_from_capture(g: Option<Option<String>>) -> (r: Option<String>)
    ensures
        opt_view(r) == title_from_group(opt_opt_view(g)),
{
    match g {
        Some(Some(c)) => cleaned(c.as_str()),
        _ => None,
    }
}

/// The page's title: the text of its `<title>` element, trimmed, with its
/// entities decoded, when something is left.
pub fn extract_title_from_html(html: &str) -> (r: Option<String>)
    ensures
        opt_view(r) == title_from_group(regex_group(TITLE_PATTERN@, html@)),
{
    title_from_capture(first_group(TITLE_PATTERN, html))
}

/// The description decided by the outcome `g` of one description pattern:
/// `Some(d)` when the search stops there with `d`, `None` when the next
/// pattern is tried.
pub open spec fn description_step(g: Option<Option<Seq<char>>>) -> Option<Option<Seq<char>>> {
    match g {
        None => Some(None),
        Some(None) => None,
        Some(Some(c)) => match cleaned_text(c) {
            Some(d) => Some(Some(d)),
            None => None,
        },
    }
}

/// The description for the outcome `g` of one pattern, followed by `rest`.
pub open spec fn description_or(g: Option<Option<Seq<char>>>, rest: Option<Seq<char>>) -> Option<
    Seq<char>,
> {
    match description_step(g) {
        Some(d) => d,
        None => rest,
    }
}

/// The description for the outcomes of the four description patterns, in
/// the order in which they are tried.
pub open spec fn description_from_groups(
    og: Option<Option<Seq<char>>>,
    og_reversed: Option<Option<Seq<char>>>,
    meta: Option<Option<Seq<char>>>,
    meta_reversed: Option<Option<Seq<char>>>,
) -> Option<Seq<char>> {
    description_or(
        og,
        description_or(og_reversed, description_or(meta, description_or(meta_reversed, None))),
    )
}

/// The page's description: the first non-empty, trimmed and decoded content
/// of an og:description tag (either attribute order), then of a description
/// tag (either attribute order).
pub open spec fn description_of(html: Seq<char>) -> Option<Seq<char>> {
    description_from_groups(
        regex_group(OG_DESCRIPTION_PATTERN@, html),
        regex_group(OG_DESCRIPTION_REVERSED_PATTERN@, html),
        regex_group(META_DESCRIPTION_PATTERN@, html),
        regex_group(META_DESCRIPTION_REVERSED_PATTERN@, html),
    )
}

fn step_of(g: Option<Option<String>>) -> (r: Option<Option<String>>)
    ensures
        match r {
            Some(d) => description_step(opt_opt_view(g)) == Some(opt_view(d)),
            None => description_step(opt_opt_view(g)) is None,
        },
{
    match g {
        None => Some(None),
        Some(None) => None,
        Some(Some(c)) => match cleaned(c.as_str()) {
            Some(d) => Some(Some(d)),
            None => None,
        },
    }
}

/// The description for the outcomes of searching a page with the four
/// description patterns, in the order in which they are tried.
pub fn description_from_captures(
    og: Option<Option<String>>,
    og_reversed: Option<Option<String>>,
    meta: Option<Option<String>>,
    meta_reversed: Option<Option<String>>,
) -> (r: Option<String>)
    ensures
        opt_view(r) == description_from_groups(
            opt_opt_view(og),
            opt_opt_view(og_reversed),
            opt_opt_view(meta),
            opt_opt_view(meta_reversed),
        ),
{
    if let Some(d) = step_of(og) {
        return d;
    }
    if let Some(d) = step_of(og_reversed) {
        return d;
    }
    if let Some(d) = step_of(meta) {
        return d;
    }
    if let Some(d) = step_of(meta_reversed) {
        return d;
    }
    None
}

/// The page's description, from its og:description or description tags.
pub fn extract_description_from_html(html: &str) -> (r: Option<String>)
    ensures
        opt_view(r) == description_of(html@),
{
    description_from_captures(
        first_group(OG_DESCRIPTION_PATTERN, html),
        first_group(OG_DESCRIPTION_REVERSED_PATTERN, html),
        first_group(META_DESCRIPTION_PATTERN, html),
        first_group(META_DESCRIPTION_REVERSED_PATTERN, html),
    )
}

/// The title and description of a page.
pub struct PageMeta {
    pub title: Option<String>,
    pub description: Option<String>,
}

/// The title and description found in a page's HTML.
pub fn extract_metadata_from_html(html: &str) -> (r: PageMeta)
    ensures
        opt_view(r.title) == title_from_group(regex_group(TITLE_PATTERN@, html@)),
        opt_view(r.description) == description_of(html@),
{
    PageMeta {
        title: extract_title_from_html(html),
        description: extract_description_from_html(html),
    }
}

// ---------------------------------------------------------------------------
// X (Twitter) pages
// ---------------------------------------------------------------------------

/// The URL, taken in lowercase, is a page of x.com or twitter.com.
pub open spec fn is_x(url: Seq<char>) -> bool {
    let l = lowercase(url);
    has_prefix(l, "https://x.com/"@) || has_prefix(l, "http://x.com/"@) || has_prefix(
        l,
        "https://twitter.com/"@,
    ) || has_prefix(l, "http://twitter.com/"@) || has_prefix(l, "https://www.x.com/"@)
        || has_prefix(l, "https://www.twitter.com/"@)
}

fn has_text_prefix(s: &Vec<char>, p: &str) -> (r: bool)
    ensures
        r == has_prefix(s@, p@),
{
    let pc = chars_of(p);
    starts_with(s, &pc)
}

/// Whether `url` is a page of x.com or twitter.com (ignoring case).
pub fn is_x_url(url: &str) -> (r: bool)
    ensures
        r == is_x(url@),
{
    let l = chars_of(to_lower(url).as_str());
    has_text_prefix(&l, "https://x.com/") || has_text_prefix(&l, "http://x.com/")
        || has_text_prefix(&l, "https://twitter.com/") || has_text_prefix(&l, "http://twitter.com/")
        || has_text_prefix(&l, "https://www.x.com/") || has_text_prefix(&l, "https://www.twitter.com/")
}

/// The title of an X page without the site's own suffix, when it says more
/// than the site's name.
pub open spec fn clean_title(title: Seq<char>) -> Option<Seq<char>> {
    let t = trim(title);
    if t.len() == 0 || t == "X"@ || t == "Twitter"@ {
        None
    } else {
        let u = if has_suffix(t, " / X"@) {
            t.take(t.len() - " / X"@.len())
        } else if has_suffix(t, " / Twitter"@) {
            t.take(t.len() - " / Twitter"@.len())
        } else {
            t
        };
        if u.len() == 0 {
            None
        } else {
            Some(u)
        }
    }
}

fn equals_text(s: &Vec<char>, p: &str) -> (r: bool)
    ensures
        r == (s@ == p@),
{
    let pc = chars_of(p);
    vec_eq(s, &pc)
}

fn has_text_suffix(s: &Vec<char>, p: &str) -> (r: bool)
    ensures
        r == has_suffix(s@, p@),
{
    let pc = chars_of(p);
    ends_with(s, &pc)
}

/// The title of an X page, trimmed and without a trailing " / X" or
/// " / Twitter"; `None` when it is empty or only the site's name.
pub fn clean_x_title(title: &str) -> (r: Option<String>)
    ensures
        opt_view(r) == clean_title(title@),
{
    let cs = chars_of(title);
    let t = trimmed(&cs);
    if t.len() == 0 || equals_text(&t, "X") || equals_text(&t, "Twitter") {
        return None;
    }
    let u = if has_text_suffix(&t, " / X") {
        let n = chars_of(" / X").len();
        subvec(&t, 0, t.len() - n)
    } else if has_text_suffix(&t, " / Twitter") {
        let n = chars_of(" / Twitter").len();
        subvec(&t, 0, t.len() - n)
    } else {
        subvec(&t, 0, t.len())
    };
    assert(t@.subrange(0, t@.len() as int) =~= t@);
    if u.len() == 0 {
        None
    } else {
        Some(string_of(&u))
    }
}

// ---------------------------------------------------------------------------
// First paragraph of a page's text
// ---------------------------------------------------------------------------

/// A trimmed line that does not count as a paragraph: empty, a heading, a
/// link or image, or at most 20 bytes long.
pub open spec fn skipped_line(t: Seq<char>) -> bool {
    t.len() == 0 || has_prefix(t, "[!["@) || has_prefix(t, "#"@) || has_prefix(t, "["@)
        || has_prefix(t, "!["@) || byte_len(t) <= 20
}

/// The number of leading characters of `s` that begin before byte `limit`.
pub open spec fn chars_starting_before(s: Seq<char>, limit: int) -> nat
    decreases s.len(),
{
    if s.len() == 0 || limit <= 0 {
        0
    } else {
        1 + chars_starting_before(s.drop_first(), limit - utf8_width(s[0]))
    }
}

/// A paragraph of more than 120 bytes cut after the last character that
/// begins before byte 120, with "..." appended.
pub open spec fn shortened(t: Seq<char>) -> Seq<char> {
    if byte_len(t) > 120 {
        t.take(chars_starting_before(t, 120) as int) + "..."@
    } else {
        t
    }
}

/// The first of the lines `ls` that, trimmed, is not skipped, shortened.
pub open spec fn first_paragraph(ls: Seq<Seq<char>>) -> Option<Seq<char>>
    decreases ls.len(),
{
    if ls.len() == 0 {
        None
    } else if skipped_line(trim(ls[0])) {
        first_paragraph(ls.drop_first())
    } else {
        Some(shortened(trim(ls[0])))
    }
}

fn count_starting_before(s: &Vec<char>, limit: usize) -> (r: usize)
    requires
        limit <= 1000,
    ensures
        r == chars_starting_before(s@, limit as int),
{
    let mut i: usize = 0;
    let mut at: usize = 0;
    assert(s@.skip(0) =~= s@);
    while i < s.len() && at < limit
        invariant
            i <= s@.len(),
            at <= limit + 4,
            limit <= 1000,
            chars_starting_before(s@, limit as int) == i + chars_starting_before(
                s@.skip(i as int),
                limit - at,
            ),
        decreases s.len() - i,
    {
        assert(s@.skip(i as int).drop_first() =~= s@.skip(i + 1));
        assert(s@.skip(i as int)[0] == s@[i as int]);
        let c = s[i];
        let u = c as u32;
        let w: usize = if u < 0x80 {
            1
        } else if u < 0x800 {
            2
        } else if u < 0x10000 {
            3
        } else {
            4
        };
        assert(w == utf8_width(c));
        at = at + w;
        i += 1;
    }
    i
}

fn is_paragraph_line(t: &Vec<char>) -> (r: bool)
    ensures
        r == !skipped_line(t@),
{
    !(t.len() == 0 || has_text_prefix(t, "[![") || has_text_prefix(t, "#") || has_text_prefix(
        t,
        "[",
    ) || has_text_prefix(t, "![") || !byte_len_exceeds(t, 20))
}

fn shorten(t: &Vec<char>) -> (r: Vec<char>)
    ensures
        r@ == shortened(t@),
{
    if byte_len_exceeds(t, 120) {
        let k = count_starting_before(t, 120);
        proof {
            lemma_chars_starting_before_bound(t@, 120);
        }
        let mut r = subvec(t, 0, k);
        push_text(&mut r, "...");
        assert(t@.subrange(0, k as int) =~= t@.take(k as int));
        r
    } else {
        subvec(t, 0, t.len())
    }
}

pub proof fn lemma_chars_starting_before_bound(s: Seq<char>, limit: int)
    ensures
        chars_starting_before(s, limit) <= s.len(),
    decreases s.len(),
{
    if s.len() > 0 && limit > 0 {
        lemma_chars_starting_before_bound(s.drop_first(), limit - utf8_width(s[0]));
    }
}

/// The first line of `content` that reads as a paragraph (trimmed, not
/// empty, not a heading, link or image, longer than 20 bytes), cut to about
/// 120 bytes.
pub fn extract_first_paragraph(content: &str) -> (r: Option<String>)
    ensures
        opt_view(r) == first_paragraph(lines_of(content@)),
{
    let lines = split_lines(content);
    let ghost ls = lines_of(content@);
    let mut i: usize = 0;
    assert(ls.skip(0) =~= ls);
    while i < lines.len()
        invariant
            i <= lines@.len(),
            ls.len() == lines@.len(),
            ls == lines_of(content@),
            forall|k: int| 0 <= k < ls.len() ==> #[trigger] ls[k] == lines@[k]@,
            first_paragraph(ls) == first_paragraph(ls.skip(i as int)),
        decreases lines.len() - i,
    {
        assert(ls.skip(i as int).drop_first() =~= ls.skip(i + 1));
        assert(ls.skip(i as int)[0] == ls[i as int]);
        let line = chars_of(lines[i].as_str());
        let t = trimmed(&line);
        assert(ls[i as int] == lines@[i as int]@);
        if is_paragraph_line(&t) {
            let r = shorten(&t);
            return Some(string_of(&r));
        }
        i += 1;
    }
    None
}

// ---------------------------------------------------------------------------
// Combining a title and a description
// ---------------------------------------------------------------------------

/// The number of leading characters of `s` that take exactly `b` bytes in
/// UTF-8, when byte `b` is a character boundary of `s`.
pub open spec fn chars_in_bytes(s: Seq<char>, b: int) -> Option<nat>
    decreases s.len(),
{
    if b == 0 {
        Some(0)
    } else if s.len() == 0 || b < utf8_width(s[0]) {
        None
    } else {
        match chars_in_bytes(s.drop_first(), b - utf8_width(s[0])) {
            Some(k) => Some(k + 1),
            None => None,
        }
    }
}

fn chars_within(s: &Vec<char>, b: usize) -> (r: Option<usize>)
    ensures
        match r {
            Some(k) => chars_in_bytes(s@, b as int) == Some(k as nat),
            None => chars_in_bytes(s@, b as int) is None,
        },
{
    let mut i: usize = 0;
    let mut rem: usize = b;
    assert(s@.skip(0) =~= s@);
    while rem > 0
        invariant
            i <= s@.len(),
            chars_in_bytes(s@, b as int) == (match chars_in_bytes(s@.skip(i as int), rem as int) {
                Some(k) => Some((k + i) as nat),
                None => None::<nat>,
            }),
        decreases rem,
    {
        if i == s.len() {
            return None;
        }
        assert(s@.skip(i as int)[0] == s@[i as int]);
        assert(s@.skip(i as int).drop_first() =~= s@.skip(i + 1));
        let c = s[i];
        let u = c as u32;
        let w: usize = if u < 0x80 {
            1
        } else if u < 0x800 {
            2
        } else if u < 0x10000 {
            3
        } else {
            4
        };
        if rem < w {
            return None;
        }
        rem = rem - w;
        i += 1;
    }
    Some(i)
}

/// `s` with its first character mapped to uppercase.
pub open spec fn upper_first(s: Seq<char>) -> Seq<char> {
    if s.len() == 0 {
        seq![]
    } else {
        uppercase(s[0]) + s.drop_first()
    }
}

/// `s` with its first character in uppercase.
pub fn uppercase_first(s: &str) -> (r: String)
    ensures
        r@ == upper_first(s@),
{
    let cs = chars_of(s);
    if cs.len() == 0 {
        return String::new();
    }
    let mut out = chars_of(char_to_upper(cs[0]).as_str());
    let rest = subvec(&cs, 1, cs.len());
    push_all(&mut out, &rest);
    assert(cs@.subrange(1, cs@.len() as int) =~= cs@.drop_first());
    string_of(&out)
}

/// The lowercase description begins with the lowercase title and a separator
/// (" - ", ": " or " | ").
pub open spec fn has_title_prefix(tl: Seq<char>, dl: Seq<char>) -> bool {
    has_prefix(dl, tl + " - "@) || has_prefix(dl, tl + ": "@) || has_prefix(dl, tl + " | "@)
}

/// The lowercase description begins with the lowercase title and " is " or
/// " — ".
pub open spec fn is_reworded(tl: Seq<char>, dl: Seq<char>) -> bool {
    has_prefix(dl, tl + " is "@) || has_prefix(dl, tl + " — "@)
}

/// What follows the title in a description of the form "Title is ...":
/// the description after as many bytes as the title has, trimmed at the
/// start, without a leading "is " or "— ".
pub open spec fn reworded_rest(t: Seq<char>, d: Seq<char>) -> Seq<char> {
    let rest = trim_start(d.skip(chars_in_bytes(d, byte_len(t) as int)->0 as int));
    if has_prefix(rest, "is "@) {
        rest.skip("is "@.len() as int)
    } else if has_prefix(rest, "— "@) {
        rest.skip("— "@.len() as int)
    } else {
        rest
    }
}

/// Combining the title and description cannot be done: the description reads
/// "Title is ..." once lowercased, but the title's byte length is not a
/// character boundary of the description.
pub open spec fn label_undefined(title: Option<Seq<char>>, description: Option<Seq<char>>) -> bool {
    match (title, description) {
        (Some(t), Some(d)) => {
            let tl = lowercase(t);
            let dl = lowercase(d);
            tl != dl && !has_title_prefix(tl, dl) && is_reworded(tl, dl) && chars_in_bytes(
                d,
                byte_len(t) as int,
            ) is None
        },
        _ => false,
    }
}

/// The label made of a title and a description, compared in lowercase: the
/// title when both say the same, the description when it already begins with
/// the title and a separator, "Title: Rest" when the description reads
/// "Title is rest", and "Title: Description" otherwise; either one alone
/// when the other is missing.
pub open spec fn label_of(title: Option<Seq<char>>, description: Option<Seq<char>>) -> Option<
    Seq<char>,
> {
    match (title, description) {
        (Some(t), Some(d)) => {
            let tl = lowercase(t);
            let dl = lowercase(d);
            if tl == dl {
                Some(t)
            } else if has_title_prefix(tl, dl) {
                Some(d)
            } else if is_reworded(tl, dl) {
                Some(t + ": "@ + upper_first(reworded_rest(t, d)))
            } else {
                Some(t + ": "@ + d)
            }
        },
        (Some(t), None) => Some(t),
        (None, Some(d)) => Some(d),
        (None, None) => None,
    }
}

fn prefixed_by(dl: &Vec<char>, tl: &Vec<char>, sep: &str) -> (r: bool)
    ensures
        r == has_prefix(dl@, tl@ + sep@),
{
    let mut p = subvec(tl, 0, tl.len());
    assert(tl@.subrange(0, tl@.len() as int) =~= tl@);
    push_text(&mut p, sep);
    starts_with(dl, &p)
}

fn lower_chars(s: &str) -> (r: Vec<char>)
    ensures
        r@ == lowercase(s@),
{
    chars_of(to_lower(s).as_str())
}

/// The label for a bookmark from its title and description; see `label_of`.
pub fn format_bookmark_label(title: Option<String>, description: Option<String>) -> (r: Option<
    String,
>)
    requires
        !label_undefined(opt_view(title), opt_view(description)),
    ensures
        opt_view(r) == label_of(opt_view(title), opt_view(description)),
{
    match (title, description) {
        (Some(t), Some(d)) => {
            let tl = lower_chars(t.as_str());
            let dl = lower_chars(d.as_str());
            if vec_eq(&tl, &dl) {
                return Some(t);
            }
            if prefixed_by(&dl, &tl, " - ") || prefixed_by(&dl, &tl, ": ") || prefixed_by(
                &dl,
                &tl,
                " | ",
            ) {
                return Some(d);
            }
            let mut out = chars_of(t.as_str());
            push_text(&mut out, ": ");
            if prefixed_by(&dl, &tl, " is ") || prefixed_by(&dl, &tl, " — ") {
                let dc = chars_of(d.as_str());
                let b = str_byte_len(t.as_str());
                let k = match chars_within(&dc, b) {
                    Some(k) => k,
                    None => {
                        return None;
                    },
                };
                proof {
                    lemma_chars_in_bytes_bound(d@, b as int);
                }
                let after = subvec(&dc, k, dc.len());
                assert(after@ =~= d@.skip(k as int));
                let rest = trimmed_start(&after);
                let rest2 = if has_text_prefix(&rest, "is ") {
                    let n = chars_of("is ").len();
                    subvec(&rest, n, rest.len())
                } else if has_text_prefix(&rest, "— ") {
                    let n = chars_of("— ").len();
                    subvec(&rest, n, rest.len())
                } else {
                    subvec(&rest, 0, rest.len())
                };
                assert(rest@.subrange(0, rest@.len() as int) =~= rest@);
                assert(rest2@ =~= reworded_rest(t@, d@));
                let up = uppercase_first(string_of(&rest2).as_str());
                push_text(&mut out, up.as_str());
            } else {
                push_text(&mut out, d.as_str());
            }
            Some(string_of(&out))
        },
        (Some(t), None) => Some(t),
        (None, Some(d)) => Some(d),
        (None, None) => None,
    }
}

proof fn lemma_chars_in_bytes_bound(s: Seq<char>, b: int)
    ensures
        chars_in_bytes(s, b) matches Some(k) ==> k <= s.len(),
    decreases s.len(),
{
    if b != 0 && s.len() > 0 && b >= utf8_width(s[0]) {
        lemma_chars_in_bytes_bound(s.drop_first(), b - utf8_width(s[0]));
    }
}

/// Whether a title and a description can be combined (see `label_undefined`).
fn label_defined(title: &Option<String>, description: &Option<String>) -> (r: bool)
    ensures
        r == !label_undefined(opt_view(*title), opt_view(*description)),
{
    match (title, description) {
        (Some(t), Some(d)) => {
            let tl = lower_chars(t.as_str());
            let dl = lower_chars(d.as_str());
            if vec_eq(&tl, &dl) || prefixed_by(&dl, &tl, " - ") || prefixed_by(
                &dl,
                &tl,
                ": ",
            ) || prefixed_by(&dl, &tl, " | ") {
                return true;
            }
            if !(prefixed_by(&dl, &tl, " is ") || prefixed_by(&dl, &tl, " — ")) {
                return true;
            }
            let dc = chars_of(d.as_str());
            let b = str_byte_len(t.as_str());
            chars_within(&dc, b).is_some()
        },
        _ => true,
    }
}

/// The label for a title and a description, or `None` where they cannot be
/// combined (see `label_undefined`).
pub fn try_format_bookmark_label(title: Option<String>, description: Option<String>) -> (r: Option<
    Option<String>,
>)
    ensures
        r is None <==> label_undefined(opt_view(title), opt_view(description)),
        r matches Some(l) ==> opt_view(l) == label_of(opt_view(title), opt_view(description)),
{
    if label_defined(&title, &description) {
        Some(format_bookmark_label(title, description))
    } else {
        None
    }
}

// ---------------------------------------------------------------------------
// Reader service responses
// ---------------------------------------------------------------------------

/// The strings under `data.title`, `data.description` and `data.content` of
/// the JSON document `body`, as `serde_json` reads them (a member that is
/// missing or not a string gives `None`); `None` as a whole when `body` is not
/// JSON or has no `data` member.
pub uninterp spec fn reader_fields(body: Seq<u8>) -> Option<
    (Option<Seq<char>>, Option<Seq<char>>, Option<Seq<char>>),
>;

/// The view of the fields of a reader response.
pub open spec fn fields_view(r: Option<(Option<String>, Option<String>, Option<String>)>) -> Option<
    (Option<Seq<char>>, Option<Seq<char>>, Option<Seq<char>>),
> {
    match r {
        None => None,
        Some((t, d, c)) => Some((opt_view(t), opt_view(d), opt_view(c))),
    }
}

/// `serde_json::from_slice` into a `serde_json::Value`, then `get("data")`,
/// and on it `get` and `as_str` for the title, description and content. The
/// result is named by `reader_fields`; nothing is claimed of how JSON is
/// read.
#[verifier::external_body]
fn parse_reader_response(body: &[u8]) -> (r: Option<(Option<String>, Option<String>, Option<String>)>)
    ensures
        fields_view(r) == reader_fields(body@),
{
    let json: serde_json::Value = match serde_json::from_slice(body) {
        Ok(v) => v,
        Err(_) => return None,
    };
    let data = json.get("data")?;
    Some((
        data.get("title").and_then(serde_json::Value::as_str).map(str::to_string),
        data.get("description").and_then(serde_json::Value::as_str).map(str::to_string),
        data.get("content").and_then(serde_json::Value::as_str).map(str::to_string),
    ))
}

/// The text of an optional field, empty when it is missing.
pub open spec fn or_empty(o: Option<Seq<char>>) -> Seq<char> {
    match o {
        Some(s) => s,
        None => seq![],
    }
}

/// `s` trimmed, when something is left.
pub open spec fn nonblank(s: Seq<char>) -> Option<Seq<char>> {
    let t = trim(s);
    if t.len() == 0 {
        None
    } else {
        Some(t)
    }
}

/// The title the reader service gives for `url`: cleaned of the site's name
/// for an X page, trimmed otherwise.
pub open spec fn reader_title(url: Seq<char>, raw_title: Seq<char>) -> Option<Seq<char>> {
    if is_x(url) {
        clean_title(raw_title)
    } else {
        nonblank(raw_title)
    }
}

/// The reader's title and description cannot be combined.
pub open spec fn reader_label_undefined(
    url: Seq<char>,
    raw_title: Seq<char>,
    description: Seq<char>,
) -> bool {
    label_undefined(reader_title(url, raw_title), nonblank(description))
}

/// The label from the reader's fields: the title and description combined,
/// or else the first paragraph of the content.
pub open spec fn reader_label(
    url: Seq<char>,
    raw_title: Seq<char>,
    description: Seq<char>,
    content: Seq<char>,
) -> Option<Seq<char>> {
    let l = label_of(reader_title(url, raw_title), nonblank(description));
    if l is Some {
        l
    } else {
        first_paragraph(lines_of(content))
    }
}

fn nonblank_of(s: &str) -> (r: Option<String>)
    ensures
        opt_view(r) == nonblank(s@),
{
    let cs = chars_of(s);
    let t = trimmed(&cs);
    if t.len() == 0 {
        None
    } else {
        Some(string_of(&t))
    }
}

/// The label for `url` from the fields of the reader's response; `None` where
/// the title and description cannot be combined.
pub fn label_from_reader(url: &str, raw_title: &str, description: &str, content: &str) -> (r: Option<
    Option<String>,
>)
    ensures
        r is None <==> reader_label_undefined(url@, raw_title@, description@),
        r matches Some(l) ==> opt_view(l) == reader_label(url@, raw_title@, description@, content@),
{
    let title = if is_x_url(url) {
        clean_x_title(raw_title)
    } else {
        nonblank_of(raw_title)
    };
    let desc = nonblank_of(description);
    match try_format_bookmark_label(title, desc) {
        None => None,
        Some(Some(l)) => Some(Some(l)),
        Some(None) => Some(extract_first_paragraph(content)),
    }
}

fn text_or_empty(o: Option<String>) -> (r: String)
    ensures
        r@ == or_empty(opt_view(o)),
{
    match o {
        Some(s) => s,
        None => String::new(),
    }
}

/// The label for `url` from the body of the reader's response: `Some(None)`
/// when the body is not a reader document; `None` where the title and
/// description cannot be combined.
pub fn label_from_reader_response(url: &str, body: &[u8]) -> (r: Option<Option<String>>)
    ensures
        match reader_fields(body@) {
            None => r == Some(None::<String>),
            Some((t, d, c)) => {
                &&& r is None <==> reader_label_undefined(url@, or_empty(t), or_empty(d))
                &&& r matches Some(l) ==> opt_view(l) == reader_label(
                    url@,
                    or_empty(t),
                    or_empty(d),
                    or_empty(c),
                )
            },
        },
{
    match parse_reader_response(body) {
        None => Some(None),
        Some((t, d, c)) => {
            let t = text_or_empty(t);
            let d = text_or_empty(d);
            let c = text_or_empty(c);
            label_from_reader(url, t.as_str(), d.as_str(), c.as_str())
        },
    }
}

// ---------------------------------------------------------------------------
// Fetching a label
// ---------------------------------------------------------------------------

/// The label for a page's HTML: its title and description combined; `None`
/// where they cannot be combined.
pub fn label_from_html(html: &str) -> (r: Option<Option<String>>)
    ensures
        r is None <==> label_undefined(
            title_from_group(regex_group(TITLE_PATTERN@, html@)),
            description_of(html@),
        ),
        r matches Some(l) ==> opt_view(l) == label_of(
            title_from_group(regex_group(TITLE_PATTERN@, html@)),
            description_of(html@),
        ),
{
    let meta = extract_metadata_from_html(html);
    try_format_bookmark_label(meta.title, meta.description)
}

/// What has happened while looking for a bookmark's label.
pub enum FetchEvent {
    /// Nothing yet.
    Start,
    /// The page itself was asked for: its text, or `None` when that failed.
    PageFetched(Option<String>),
    /// The reader service was asked: the body of its answer, or `None` when
    /// that failed.
    ReaderFetched(Option<Vec<u8>>),
}

/// What to do next while looking for a bookmark's label.
pub enum FetchAction {
    /// Ask for the page itself.
    GetPage,
    /// Ask the reader service, waiting for a post's text when `true`.
    AskReader(bool),
    /// The label is found, or there is none.
    Done(Option<String>),
    /// The title and description found cannot be combined.
    LabelUndefined,
}

/// One step of looking for the label of `url`: an X page goes to the reader
/// service at once; any other page is fetched, and the reader is asked only
/// when the page gives no title and no description.
pub fn fetch_step(url: &str, event: FetchEvent) -> (r: FetchAction)
    ensures
        match event {
            FetchEvent::Start => if is_x(url@) {
                r == FetchAction::AskReader(true)
            } else {
                r is GetPage
            },
            FetchEvent::PageFetched(None) => r matches FetchAction::Done(None),
            FetchEvent::PageFetched(Some(html)) => {
                let t = title_from_group(regex_group(TITLE_PATTERN@, html@));
                let d = description_of(html@);
                if label_undefined(t, d) {
                    r is LabelUndefined
                } else {
                    match label_of(t, d) {
                        Some(l) => r matches FetchAction::Done(Some(x)) && x@ == l,
                        None => r == FetchAction::AskReader(is_x(url@)),
                    }
                }
            },
            FetchEvent::ReaderFetched(None) => r matches FetchAction::Done(None),
            FetchEvent::ReaderFetched(Some(body)) => match reader_fields(body@) {
                None => r matches FetchAction::Done(None),
                Some((t, d, c)) => if reader_label_undefined(url@, or_empty(t), or_empty(d)) {
                    r is LabelUndefined
                } else {
                    r matches FetchAction::Done(x) && opt_view(x) == reader_label(
                        url@,
                        or_empty(t),
                        or_empty(d),
                        or_empty(c),
                    )
                },
            },
        },
{
    match event {
        FetchEvent::Start => if is_x_url(url) {
            FetchAction::AskReader(true)
        } else {
            FetchAction::GetPage
        },
        FetchEvent::PageFetched(None) => FetchAction::Done(None),
        FetchEvent::PageFetched(Some(html)) => match label_from_html(html.as_str()) {
            None => FetchAction::LabelUndefined,
            Some(Some(l)) => FetchAction::Done(Some(l)),
            Some(None) => FetchAction::AskReader(is_x_url(url)),
        },
        FetchEvent::ReaderFetched(None) => FetchAction::Done(None),
        FetchEvent::ReaderFetched(Some(body)) => match label_from_reader_response(
            url,
            body.as_slice(),
        ) {
            None => FetchAction::LabelUndefined,
            Some(l) => FetchAction::Done(l),
        },
    }
}

} // verus!
