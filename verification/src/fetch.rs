use vstd::prelude::*;

use crate::model::{opt_view, strs_view, Bookmark, BookmarkView};
use crate::text::{
    chars_of, contains, contains_vec, count_char, count_char_vec, is_blank, lit, string_of, trim,
    trim_str, trim_vec,
};
use crate::text_split::{
    collapse_ws, collapse_ws_vec, split, split_vec, strings_to_vecs, vecs_to_strings,
};
use crate::urls::{parse_url, url_parse, UrlError};

verus! {

// ---------------------------------------------------------------------------
// Calls into the HTML libraries
// ---------------------------------------------------------------------------

/// What `scraper` finds for the selector `meta[{attr}="{key}"]` in a page:
/// the `content` attribute of the first matching element that has one.
pub uninterp spec fn html_meta_content(html: Seq<char>, attr: Seq<char>, key: Seq<char>) -> Option<Seq<char>>;

/// Parses the page with `scraper::Html::parse_document`, builds the selector
/// `meta[{attr}="{key}"]` with `scraper::Selector::parse` and returns the
/// `content` attribute of the first selected element that has one. The
/// outcome is named, not written out.
#[verifier::external_body]
fn meta_attr_content(html: &str, attr: &str, key: &str) -> (r: Option<String>)
    ensures
        opt_view(r) == html_meta_content(html@, attr@, key@),
{
    let doc = scraper::Html::parse_document(html);
    let selector = scraper::Selector::parse(&format!("meta[{}=\"{}\"]", attr, key)).ok()?;
    doc.select(&selector).find_map(|n| n.value().attr("content").map(|s| s.to_string()))
}

/// What `scraper` finds as the text of the first `title` element of a page.
pub uninterp spec fn html_title_text(html: Seq<char>) -> Option<Seq<char>>;

/// Parses the page with `scraper::Html::parse_document` and returns the
/// concatenated text of the first `title` element. The outcome is named.
#[verifier::external_body]
fn first_title_text(html: &str) -> (r: Option<String>)
    ensures
        opt_view(r) == html_title_text(html@),
{
    let doc = scraper::Html::parse_document(html);
    let selector = scraper::Selector::parse("title").ok()?;
    doc.select(&selector).next().map(|n| n.text().collect::<String>())
}

/// What `dom_smoothie` extracts as the readable text of a page at a URL.
pub uninterp spec fn readability_text(html: Seq<char>, url: Seq<char>) -> Option<Seq<char>>;

/// Runs `dom_smoothie::Readability` (default configuration) on the page and
/// returns the extracted article's `text_content`; `None` where it reports an
/// error. The outcome is named.
#[verifier::external_body]
fn readable_text(html: &str, url: &str) -> (r: Option<String>)
    ensures
        opt_view(r) == readability_text(html@, url@),
{
    let cfg = dom_smoothie::Config::default();
    let mut readability = dom_smoothie::Readability::new(html, Some(url), Some(cfg)).ok()?;
    let article = readability.parse().ok()?;
    Some(article.text_content.to_string())
}

// ---------------------------------------------------------------------------
// Text helpers
// ---------------------------------------------------------------------------

/// `Some(s)` unless `s` is only whitespace.
pub open spec fn non_blank(o: Option<Seq<char>>) -> Option<Seq<char>> {
    match o {
        Some(s) => if trim(s).len() == 0 {
            None
        } else {
            Some(s)
        },
        None => None,
    }
}

/// `a.or(b)`.
pub open spec fn or_else(a: Option<Seq<char>>, b: Option<Seq<char>>) -> Option<Seq<char>> {
    match a {
        Some(_) => a,
        None => b,
    }
}

/// `o.map(collapse_ws)`.
pub open spec fn collapse_opt(o: Option<Seq<char>>) -> Option<Seq<char>> {
    match o {
        Some(s) => Some(collapse_ws(s)),
        None => None,
    }
}

/// The `content` of `<meta property="{key}">`, unless blank.
pub open spec fn meta_property(html: Seq<char>, key: Seq<char>) -> Option<Seq<char>> {
    non_blank(html_meta_content(html, "property"@, key))
}

/// The `content` of `<meta name="{key}">`, unless blank.
pub open spec fn meta_name(html: Seq<char>, key: Seq<char>) -> Option<Seq<char>> {
    non_blank(html_meta_content(html, "name"@, key))
}

fn meta_content(html: &str, property: &str) -> (r: Option<String>)
    ensures
        opt_view(r) == meta_property(html@, property@),
{
    let found = meta_attr_content(html, "property", property);
    match found {
        Some(s) => if is_blank(&chars_of(s.as_str())) {
            None
        } else {
            Some(s)
        },
        None => None,
    }
}

fn meta_name_content(html: &str, name: &str) -> (r: Option<String>)
    ensures
        opt_view(r) == meta_name(html@, name@),
{
    let found = meta_attr_content(html, "name", name);
    match found {
        Some(s) => if is_blank(&chars_of(s.as_str())) {
            None
        } else {
            Some(s)
        },
        None => None,
    }
}

/// `s.split_whitespace().join(" ")`.
pub fn collapse_whitespace(s: &str) -> (r: String)
    ensures
        r@ == collapse_ws(s@),
{
    string_of(&collapse_ws_vec(&chars_of(s)))
}

/// The pieces that are not empty, in order.
pub open spec fn non_empty(parts: Seq<Seq<char>>) -> Seq<Seq<char>>
    decreases parts.len(),
{
    if parts.len() == 0 {
        seq![]
    } else {
        non_empty(parts.drop_last()) + if parts.last().len() == 0 {
            seq![]
        } else {
            seq![parts.last()]
        }
    }
}

/// Each piece trimmed.
pub open spec fn trim_all(parts: Seq<Seq<char>>) -> Seq<Seq<char>> {
    parts.map_values(|p: Seq<char>| trim(p))
}

/// The names in an author field: split at `;` if there is one, else at
/// ` and ` if that occurs, else at `,` if there are at least two commas;
/// each name trimmed, empty names dropped.
pub open spec fn split_authors_spec(raw: Seq<char>) -> Seq<Seq<char>> {
    let parts = if contains(raw, seq![';']) {
        trim_all(split(raw, seq![';']))
    } else if contains(raw, " and "@) {
        trim_all(split(raw, " and "@))
    } else if count_char(raw, ',') >= 2 {
        trim_all(split(raw, seq![',']))
    } else {
        seq![trim(raw)]
    };
    non_empty(parts)
}

fn trim_non_empty(parts: &Vec<Vec<char>>) -> (r: Vec<Vec<char>>)
    ensures
        r@.map_values(|v: Vec<char>| v@) == non_empty(trim_all(parts@.map_values(|v: Vec<char>| v@))),
{
    let ghost pv = trim_all(parts@.map_values(|v: Vec<char>| v@));
    let mut out: Vec<Vec<char>> = Vec::new();
    let mut i: usize = 0;
    while i < parts.len()
        invariant
            i <= parts.len(),
            pv == trim_all(parts@.map_values(|v: Vec<char>| v@)),
            out@.map_values(|v: Vec<char>| v@) == non_empty(pv.take(i as int)),
        decreases parts.len() - i,
    {
        let t = trim_vec(&parts[i]);
        assert(pv.take(i + 1).drop_last() =~= pv.take(i as int));
        assert(pv[i as int] == t@);
        let ghost before = out@.map_values(|v: Vec<char>| v@);
        if t.len() > 0 {
            out.push(t);
            assert(out@.map_values(|v: Vec<char>| v@) =~= before.push(pv[i as int]));
        } else {
            assert(before + Seq::<Seq<char>>::empty() =~= before);
        }
        i += 1;
    }
    assert(pv.take(parts.len() as int) =~= pv);
    out
}

/// The author names in a raw author field.
pub fn split_authors(raw: &str) -> (r: Vec<String>)
    ensures
        strs_view(r) == split_authors_spec(raw@),
{
    let v = chars_of(raw);
    let semi = {
        let mut s: Vec<char> = Vec::new();
        s.push(';');
        s
    };
    assert(semi@ =~= seq![';']);
    let and = lit(" and ");
    let comma = {
        let mut s: Vec<char> = Vec::new();
        s.push(',');
        s
    };
    assert(comma@ =~= seq![',']);
    proof {
        reveal_strlit(" and ");
    }
    let parts = if contains_vec(&v, &semi) {
        trim_non_empty(&split_vec(&v, &semi))
    } else if contains_vec(&v, &and) {
        trim_non_empty(&split_vec(&v, &and))
    } else if count_char_vec(&v, ',') >= 2 {
        trim_non_empty(&split_vec(&v, &comma))
    } else {
        let mut one: Vec<Vec<char>> = Vec::new();
        one.push(v);
        assert(one@.map_values(|x: Vec<char>| x@) =~= seq![v@]);
        assert(trim_all(seq![v@]) =~= seq![trim(v@)]);
        trim_non_empty(&one)
    };
    vecs_to_strings(&parts)
}

/// `Vec::dedup`: consecutive repeats removed, the first of each run kept.
pub open spec fn dedup(s: Seq<Seq<char>>) -> Seq<Seq<char>>
    decreases s.len(),
{
    if s.len() <= 1 {
        s
    } else if s.last() == s[s.len() - 2] {
        dedup(s.drop_last())
    } else {
        dedup(s.drop_last()).push(s.last())
    }
}

fn dedup_vec(s: &Vec<Vec<char>>) -> (r: Vec<Vec<char>>)
    ensures
        r@.map_values(|v: Vec<char>| v@) == dedup(s@.map_values(|v: Vec<char>| v@)),
{
    let ghost sv = s@.map_values(|v: Vec<char>| v@);
    let mut out: Vec<Vec<char>> = Vec::new();
    let mut i: usize = 0;
    while i < s.len()
        invariant
            i <= s.len(),
            sv == s@.map_values(|v: Vec<char>| v@),
            out@.map_values(|v: Vec<char>| v@) == dedup(sv.take(i as int)),
        decreases s.len() - i,
    {
        assert(sv.take(i + 1).drop_last() =~= sv.take(i as int));
        let ghost before = out@.map_values(|v: Vec<char>| v@);
        if i > 0 && crate::text::eq_vec(&s[i], &s[i - 1]) {
            assert(sv.take(i + 1)[i - 1] == sv[i - 1]);
        } else {
            out.push(crate::paths::copy_vec(&s[i]));
            assert(out@.map_values(|v: Vec<char>| v@) =~= before.push(sv[i as int]));
            if i == 0 {
                assert(sv.take(1) =~= seq![sv[0]]);
                assert(before =~= Seq::<Seq<char>>::empty());
            }
        }
        i += 1;
    }
    assert(sv.take(s.len() as int) =~= sv);
    out
}

/// The value of an ASCII decimal digit.
pub open spec fn digit_value(c: char) -> int {
    (c as int) - ('0' as int)
}

pub open spec fn is_digit(c: char) -> bool {
    '0' <= c && c <= '9'
}

/// The year written by the four digits at `i`, if it is within 1900..=2100.
pub open spec fn year_at(s: Seq<char>, i: int) -> Option<u16> {
    if is_digit(s[i]) && is_digit(s[i + 1]) && is_digit(s[i + 2]) && is_digit(s[i + 3]) {
        let v = digit_value(s[i]) * 1000 + digit_value(s[i + 1]) * 100 + digit_value(s[i + 2])
            * 10 + digit_value(s[i + 3]);
        if 1900 <= v && v <= 2100 {
            Some(v as u16)
        } else {
            None
        }
    } else {
        None
    }
}

/// The first year in 1900..=2100 written as four consecutive ASCII digits in
/// `s` at or after `i`.
pub open spec fn year_from(s: Seq<char>, i: int) -> Option<u16>
    decreases s.len() - i,
{
    if i < 0 || i + 4 > s.len() {
        None
    } else {
        match year_at(s, i) {
            Some(y) => Some(y),
            None => year_from(s, i + 1),
        }
    }
}

fn digit_exec(c: char) -> (r: u32)
    requires
        is_digit(c),
    ensures
        r == digit_value(c),
{
    (c as u32) - ('0' as u32)
}

/// The first plausible publication year in a date string.
pub fn extract_year(s: &str) -> (r: Option<u16>)
    ensures
        r == year_from(s@, 0),
{
    let v = chars_of(s);
    let mut i: usize = 0;
    while i < v.len() && v.len() - i >= 4
        invariant
            v@ == s@,
            year_from(s@, 0) == year_from(s@, i as int),
        decreases v.len() - i,
    {
        if '0' <= v[i] && v[i] <= '9' && '0' <= v[i + 1] && v[i + 1] <= '9' && '0' <= v[i + 2]
            && v[i + 2] <= '9' && '0' <= v[i + 3] && v[i + 3] <= '9' {
            let y = digit_exec(v[i]) * 1000 + digit_exec(v[i + 1]) * 100 + digit_exec(v[i + 2])
                * 10 + digit_exec(v[i + 3]);
            if 1900 <= y && y <= 2100 {
                return Some(y as u16);
            }
        }
        i += 1;
    }
    None
}

// ---------------------------------------------------------------------------
// Reading a page
// ---------------------------------------------------------------------------

pub open spec fn title_raw(h: Seq<char>) -> Option<Seq<char>> {
    or_else(
        meta_property(h, "og:title"@),
        or_else(
            meta_property(h, "twitter:title"@),
            or_else(meta_name(h, "title"@), collapse_opt(html_title_text(h))),
        ),
    )
}

pub open spec fn opt_or_empty(o: Option<Seq<char>>) -> Seq<char> {
    match o {
        Some(s) => s,
        None => seq![],
    }
}

/// The author names of a page: from `<meta name="author">`, then
/// `article:author`, then `book:author`, split and with consecutive repeats
/// removed.
pub open spec fn page_authors(h: Seq<char>) -> Seq<Seq<char>> {
    let a = match meta_name(h, "author"@) {
        Some(s) => split_authors_spec(s),
        None => seq![],
    };
    let b = match meta_property(h, "article:author"@) {
        Some(s) => split_authors_spec(s),
        None => seq![],
    };
    let c = match meta_property(h, "book:author"@) {
        Some(s) => split_authors_spec(s),
        None => seq![],
    };
    dedup(a + b + c)
}

pub open spec fn page_year(h: Seq<char>) -> Option<u16> {
    match or_else(
        meta_property(h, "article:published_time"@),
        or_else(
            meta_name(h, "date"@),
            or_else(meta_name(h, "pubdate"@), meta_property(h, "og:updated_time"@)),
        ),
    ) {
        Some(s) => year_from(s, 0),
        None => None,
    }
}

/// The metadata a page declares about itself.
pub open spec fn parse_html_spec(h: Seq<char>) -> BookmarkView {
    BookmarkView {
        url: seq![],
        title: collapse_ws(opt_or_empty(title_raw(h))),
        description: collapse_opt(
            or_else(
                meta_property(h, "og:description"@),
                or_else(meta_property(h, "twitter:description"@), meta_name(h, "description"@)),
            ),
        ),
        authors: page_authors(h),
        site: collapse_opt(meta_property(h, "og:site_name"@)),
        year: page_year(h),
        tags: seq![],
        added: None,
        files: seq![],
        preview: None,
    }
}

fn or_string(a: Option<String>, b: Option<String>) -> (r: Option<String>)
    ensures
        opt_view(r) == or_else(opt_view(a), opt_view(b)),
{
    match a {
        Some(_) => a,
        None => b,
    }
}

fn collapse_opt_exec(o: Option<String>) -> (r: Option<String>)
    ensures
        opt_view(r) == collapse_opt(opt_view(o)),
{
    match o {
        Some(s) => Some(collapse_whitespace(s.as_str())),
        None => None,
    }
}

fn authors_of(o: Option<String>) -> (r: Vec<Vec<char>>)
    ensures
        r@.map_values(|v: Vec<char>| v@) == match opt_view(o) {
            Some(s) => split_authors_spec(s),
            None => seq![],
        },
{
    match o {
        Some(s) => strings_to_vecs(&split_authors(s.as_str())),
        None => {
            let v: Vec<Vec<char>> = Vec::new();
            assert(v@.map_values(|x: Vec<char>| x@) =~= Seq::<Seq<char>>::empty());
            v
        },
    }
}

fn append_vecs(a: &mut Vec<Vec<char>>, b: Vec<Vec<char>>)
    ensures
        final(a)@.map_values(|v: Vec<char>| v@) == old(a)@.map_values(|v: Vec<char>| v@) + b@.map_values(
            |v: Vec<char>| v@,
        ),
{
    let mut b = b;
    let ghost a0 = a@.map_values(|v: Vec<char>| v@);
    let ghost bv = b@.map_values(|v: Vec<char>| v@);
    a.append(&mut b);
    assert(a@.map_values(|v: Vec<char>| v@) =~= a0 + bv);
}

/// Reads the title, description, authors, site name and year that a page
/// declares in its `meta` tags (or, for the title, its `title` element).
proof fn lemma_dedup_keeps_items(s: Seq<Seq<char>>, y: Seq<char>)
    requires
        s.contains(y),
    ensures
        dedup(s).contains(y),
    decreases s.len(),
{
    if s.len() > 1 {
        let k = choose|k: int| 0 <= k < s.len() && s[k] == y;
        if k < s.len() - 1 {
            assert(s.drop_last()[k] == y);
            lemma_dedup_keeps_items(s.drop_last(), y);
        } else {
            if s.last() == s[s.len() - 2] {
                assert(s.drop_last()[s.len() - 2] == y);
                lemma_dedup_keeps_items(s.drop_last(), y);
            } else {
                let d = dedup(s.drop_last()).push(s.last());
                assert(d[d.len() - 1] == y);
            }
        }
        if k < s.len() - 1 && s.last() != s[s.len() - 2] {
            let d0 = dedup(s.drop_last());
            let j = choose|j: int| 0 <= j < d0.len() && d0[j] == y;
            assert(d0.push(s.last())[j] == y);
        }
    }
}

proof fn lemma_split_single_name(s: Seq<char>)
    requires
        trim(s).len() > 0,
        !contains(s, seq![';']),
        !contains(s, " and "@),
        count_char(s, ',') < 2,
    ensures
        split_authors_spec(s) == seq![trim(s)],
{
    let one = seq![trim(s)];
    assert(one.drop_last() =~= Seq::<Seq<char>>::empty());
    assert(non_empty(one.drop_last()) =~= Seq::<Seq<char>>::empty());
    assert(one.last() == trim(s));
    assert(non_empty(one) =~= seq![trim(s)]);
}

/// Whether every name that an author tag with this content gives is among
/// `authors`.
pub open spec fn tag_names_kept(content: Option<Seq<char>>, authors: Seq<Seq<char>>) -> bool {
    match content {
        Some(s) => trim(s).len() > 0 ==> forall|n: Seq<char>|
            #[trigger] split_authors_spec(s).contains(n) ==> authors.contains(n),
        None => true,
    }
}

/// Whether an author tag holding a single non-blank name (no `;`, no
/// ` and `, fewer than two commas) has that name, trimmed, among `authors`.
pub open spec fn single_name_kept(content: Option<Seq<char>>, authors: Seq<Seq<char>>) -> bool {
    match content {
        Some(s) => (trim(s).len() > 0 && !contains(s, seq![';']) && !contains(s, " and "@)
            && count_char(s, ',') < 2) ==> authors.contains(trim(s)),
        None => true,
    }
}

/// The authors of a page gather the names of all three of its author tags:
/// every name that `<meta name="author">`, `<meta property="article:author">`
/// or `<meta property="book:author">` gives is among them. In particular a
/// non-blank tag holding a single name contributes that name, trimmed,
/// whatever the other tags hold.
pub proof fn law_page_authors_from_every_tag(h: Seq<char>)
    ensures
        ({
            let authors = parse_html_spec(h).authors;
            let tags = seq![
                html_meta_content(h, "name"@, "author"@),
                html_meta_content(h, "property"@, "article:author"@),
                html_meta_content(h, "property"@, "book:author"@),
            ];
            forall|i: int| 0 <= i < 3 ==> tag_names_kept(#[trigger] tags[i], authors) && single_name_kept(tags[i], authors)
        }),
{
    let authors = parse_html_spec(h).authors;
    let a = match meta_name(h, "author"@) {
        Some(s) => split_authors_spec(s),
        None => seq![],
    };
    let b = match meta_property(h, "article:author"@) {
        Some(s) => split_authors_spec(s),
        None => seq![],
    };
    let c = match meta_property(h, "book:author"@) {
        Some(s) => split_authors_spec(s),
        None => seq![],
    };
    let all = a + b + c;
    assert(authors == dedup(all));
    let tags = seq![
        html_meta_content(h, "name"@, "author"@),
        html_meta_content(h, "property"@, "article:author"@),
        html_meta_content(h, "property"@, "book:author"@),
    ];
    assert forall|i: int| 0 <= i < 3 implies tag_names_kept(#[trigger] tags[i], authors) && single_name_kept(tags[i], authors) by {
        if let Some(s) = tags[i] {
            if trim(s).len() > 0 {
                let part = if i == 0 { a } else if i == 1 { b } else { c };
                let off: int = if i == 0 { 0 } else if i == 1 { a.len() as int } else { (a.len() + b.len()) as int };
                assert(part == split_authors_spec(s));
                assert forall|n: Seq<char>| #[trigger] split_authors_spec(s).contains(n) implies authors.contains(n) by {
                    let k = choose|k: int| 0 <= k < split_authors_spec(s).len() && split_authors_spec(s)[k] == n;
                    assert(all[off + k] == n);
                    lemma_dedup_keeps_items(all, n);
                }
                if !contains(s, seq![';']) && !contains(s, " and "@) && count_char(s, ',') < 2 {
                    lemma_split_single_name(s);
                    assert(split_authors_spec(s)[0] == trim(s));
                    assert(split_authors_spec(s).contains(trim(s)));
                }
            }
        }
    }
}

pub fn parse_html(body: &str) -> (r: Bookmark)
    ensures
        r@ == parse_html_spec(body@),
{
    let title = or_string(
        meta_content(body, "og:title"),
        or_string(
            meta_content(body, "twitter:title"),
            or_string(meta_name_content(body, "title"), collapse_opt_exec(first_title_text(body))),
        ),
    );
    let title = match title {
        Some(t) => t,
        None => String::new(),
    };
    let description = or_string(
        meta_content(body, "og:description"),
        or_string(meta_content(body, "twitter:description"), meta_name_content(body, "description")),
    );
    let site_name = meta_content(body, "og:site_name");
    let mut authors = authors_of(meta_name_content(body, "author"));
    append_vecs(&mut authors, authors_of(meta_content(body, "article:author")));
    append_vecs(&mut authors, authors_of(meta_content(body, "book:author")));
    let authors = vecs_to_strings(&dedup_vec(&authors));
    let date = or_string(
        meta_content(body, "article:published_time"),
        or_string(
            meta_name_content(body, "date"),
            or_string(meta_name_content(body, "pubdate"), meta_content(body, "og:updated_time")),
        ),
    );
    let year = match date {
        Some(d) => extract_year(d.as_str()),
        None => None,
    };
    let r = Bookmark {
        url: String::new(),
        title: collapse_whitespace(title.as_str()),
        description: collapse_opt_exec(description),
        authors: authors,
        site: collapse_opt_exec(site_name),
        year: year,
        tags: Vec::new(),
        added: None,
        files: Vec::new(),
        preview: None,
    };
    assert(r@.tags =~= Seq::<Seq<char>>::empty());
    assert(r@.files =~= Seq::<Seq<char>>::empty());
    assert(r@.url =~= Seq::<char>::empty());
    r
}

/// What was fetched for a bookmark: the metadata found and the page itself.
pub struct FetchResult {
    pub bookmark: Bookmark,
    pub html: String,
}

/// Where to fetch a URL from: its serialization, and its host (empty if it
/// has none).
pub struct FetchRequest {
    pub url: String,
    pub site: String,
}

/// Parses the URL to fetch (`Url::parse`, as given).
pub fn fetch_request(input: &str) -> (r: Result<FetchRequest, UrlError>)
    ensures
        match url_parse(input@) {
            None => r matches Err(e) && e == UrlError::Invalid,
            Some(u) => r matches Ok(q) && q.url@ == u.serialization && q.site@ == match u.host {
                Some(h) => h,
                None => seq![],
            },
        },
{
    match parse_url(input) {
        None => Err(UrlError::Invalid),
        Some(u) => {
            let site = match u.host {
                Some(h) => h,
                None => String::new(),
            };
            Ok(FetchRequest { url: u.serialization, site })
        },
    }
}

/// The bookmark a fetched page gives: the page's own metadata, with the URL
/// fetched, the host as the site when the page names none, the URL as the
/// title when the page has none, and `today` as the date added.
pub open spec fn fetched_bookmark_spec(url: Seq<char>, site: Seq<char>, body: Seq<char>, today: Seq<char>) -> BookmarkView {
    let p = parse_html_spec(body);
    BookmarkView {
        url: url,
        title: if p.title.len() == 0 {
            url
        } else {
            p.title
        },
        site: if p.site is None && site.len() > 0 {
            Some(site)
        } else {
            p.site
        },
        added: Some(today),
        ..p
    }
}

/// Builds the result of fetching `request` once its body has been read.
pub fn fetch_result(request: &FetchRequest, body: String, today: &str) -> (r: FetchResult)
    ensures
        r.bookmark@ == fetched_bookmark_spec(request.url@, request.site@, body@, today@),
        r.html@ == body@,
{
    let mut bookmark = parse_html(body.as_str());
    bookmark.url = request.url.clone();
    if bookmark.site.is_none() && !request.site.as_str().is_empty() {
        bookmark.site = Some(request.site.clone());
    }
    if bookmark.title.as_str().is_empty() {
        bookmark.title = bookmark.url.clone();
    }
    if bookmark.added.is_none() {
        bookmark.added = Some(today.to_owned());
    }
    FetchResult { bookmark, html: body }
}

/// The readable text of a page, trimmed; `None` when the URL does not parse,
/// nothing readable is found, or it is blank.
pub open spec fn article_spec(html: Seq<char>, url: Seq<char>) -> Option<Seq<char>> {
    match url_parse(url) {
        None => None,
        Some(u) => match readability_text(html, u.serialization) {
            None => None,
            Some(t) => if trim(t).len() == 0 {
                None
            } else {
                Some(trim(t))
            },
        },
    }
}

pub fn extract_article(html: &str, url: &str) -> (r: Option<String>)
    ensures
        opt_view(r) == article_spec(html@, url@),
{
    let parsed = match parse_url(url) {
        None => return None,
        Some(u) => u,
    };
    let text = match readable_text(html, parsed.serialization.as_str()) {
        None => return None,
        Some(t) => t,
    };
    let t = trim_str(text.as_str());
    if t.as_str().is_empty() {
        None
    } else {
        Some(t)
    }
}

} // verus!
