use vstd::prelude::*;

use crate::model::{copy_opt, copy_strs, Bookmark, BookmarkView};
use crate::storage::{find_bookmark_by_url, first_match, entry_urls};
use crate::urls::{canonical_key_spec, normalize, normalize_spec, parse_url, url_parse, UrlError};

verus! {

/// What capturing a URL led to: a new bookmark saved in `dir`, or the
/// bookmark already saved there for the same page.
pub enum CaptureResult {
    Created { dir: String, bookmark: Bookmark },
    Existing { dir: String, bookmark: Bookmark },
}

/// The metadata of `current`, with what it lacks taken from `fetched`: the
/// title when it is empty or still the URL, and the description, authors,
/// site and year when they are missing. Nothing else changes.
pub open spec fn merge_spec(c: BookmarkView, f: BookmarkView) -> BookmarkView {
    BookmarkView {
        url: c.url,
        title: if c.title.len() == 0 || c.title == c.url {
            f.title
        } else {
            c.title
        },
        description: if c.description is None {
            f.description
        } else {
            c.description
        },
        authors: if c.authors.len() == 0 {
            f.authors
        } else {
            c.authors
        },
        site: if c.site is None {
            f.site
        } else {
            c.site
        },
        year: if c.year is None {
            f.year
        } else {
            c.year
        },
        tags: c.tags,
        added: c.added,
        files: c.files,
        preview: c.preview,
    }
}

/// The saved bookmark `current` completed with the metadata fetched for its
/// URL (see `merge_spec`).
pub fn enrich_saved_bookmark(current: &Bookmark, fetched: &Bookmark) -> (r: Bookmark)
    ensures
        r@ == merge_spec(current@, fetched@),
{
    let mut updated = current.copy();
    if updated.title.as_str().is_empty() || updated.title == updated.url {
        updated.title = fetched.title.clone();
    }
    if updated.description.is_none() {
        updated.description = copy_opt(&fetched.description);
    }
    if updated.authors.len() == 0 {
        updated.authors = copy_strs(&fetched.authors);
    }
    if updated.site.is_none() {
        updated.site = copy_opt(&fetched.site);
    }
    if updated.year.is_none() {
        updated.year = fetched.year;
    }
    assert(updated@ =~= merge_spec(current@, fetched@));
    updated
}

/// The bookmark saved for a URL before any metadata is fetched: the URL is
/// also its title, its site is the URL's host, and it was added `today`.
pub open spec fn placeholder_spec(url: Seq<char>, site: Option<Seq<char>>, today: Seq<char>) -> BookmarkView {
    BookmarkView {
        url: url,
        title: url,
        description: None,
        authors: seq![],
        site: site,
        year: None,
        tags: seq![],
        added: Some(today),
        files: seq![],
        preview: None,
    }
}

/// What to do with a URL that is being captured.
pub enum CapturePlan {
    /// The page is already saved in this directory.
    Existing(String),
    /// Save this new bookmark.
    Create(Bookmark),
}

/// Whether the bookmark at position `i` is the first saved one with the same
/// canonical key as the normalized URL `n`.
pub open spec fn saved_at(n: Seq<char>, entries: Seq<(String, String)>, i: int) -> bool {
    canonical_key_spec(n) matches Some(t) && first_match(t, entry_urls(entries), i)
}

/// The result of `plan_capture`.
pub open spec fn plan_ok(input: Seq<char>, entries: Seq<(String, String)>, today: Seq<char>, r: Result<CapturePlan, UrlError>) -> bool {
    match normalize_spec(input) {
        Err(e) => r == Err::<CapturePlan, UrlError>(e),
        Ok(n) => normalize_spec(n) == Ok::<Seq<char>, UrlError>(n) && if exists|i: int| #[trigger] saved_at(n, entries, i) {
            r matches Ok(CapturePlan::Existing(d)) && exists|i: int|
                #[trigger] saved_at(n, entries, i) && d@ == entries[i].0@
        } else {
            match url_parse(n) {
                None => r == Err::<CapturePlan, UrlError>(UrlError::Invalid),
                Some(u) => r matches Ok(CapturePlan::Create(b)) && b@ == placeholder_spec(n, u.host, today),
            }
        },
    }
}

/// Decides what capturing `input` does, given the bookmarks already saved as
/// `(directory, url)` in library order: the URL must be an http or https URL
/// with a host; a page whose canonical key is already saved is not saved
/// again; otherwise a placeholder bookmark is created for it.
pub fn plan_capture(input: &str, entries: &Vec<(String, String)>, today: &str) -> (r: Result<CapturePlan, UrlError>)
    ensures
        plan_ok(input@, entries@, today@, r),
{
    let normalized = match normalize(input) {
        Err(e) => return Err(e),
        Ok(n) => n,
    };
    if let Some(dir) = find_bookmark_by_url(entries, normalized.as_str()) {
        return Ok(CapturePlan::Existing(dir));
    }
    let parsed = match parse_url(normalized.as_str()) {
        None => return Err(UrlError::Invalid),
        Some(u) => u,
    };
    let bookmark = Bookmark {
        url: normalized.clone(),
        title: normalized,
        description: None,
        authors: Vec::new(),
        site: copy_opt(&parsed.host),
        year: None,
        tags: Vec::new(),
        added: Some(today.to_owned()),
        files: Vec::new(),
        preview: None,
    };
    assert(bookmark@.authors =~= Seq::<Seq<char>>::empty());
    assert(bookmark@.tags =~= Seq::<Seq<char>>::empty());
    assert(bookmark@.files =~= Seq::<Seq<char>>::empty());
    Ok(CapturePlan::Create(bookmark))
}

/// Enriching twice with the same fetched metadata changes nothing the
/// second time.
pub proof fn law_merge_idempotent(c: BookmarkView, f: BookmarkView)
    ensures
        merge_spec(merge_spec(c, f), f) == merge_spec(c, f),
{
}

/// Enriching never replaces metadata that is present: a title that is set
/// and is not the URL, a description, authors, a site and a year are kept,
/// and so are the URL, tags, date added, files and preview.
pub proof fn law_merge_keeps_present_fields(c: BookmarkView, f: BookmarkView)
    ensures
        ({
            let m = merge_spec(c, f);
            &&& m.url == c.url
            &&& (c.title.len() > 0 && c.title != c.url) ==> m.title == c.title
            &&& c.description is Some ==> m.description == c.description
            &&& c.authors.len() > 0 ==> m.authors == c.authors
            &&& c.site is Some ==> m.site == c.site
            &&& c.year is Some ==> m.year == c.year
            &&& m.tags == c.tags && m.added == c.added && m.files == c.files && m.preview == c.preview
        }),
{
}

/// Enriching fills every field that the saved bookmark lacks from the
/// fetched metadata: a title that is empty or still the URL, a missing
/// description, site or year, and an empty author list all take the fetched
/// page's value.
pub proof fn law_merge_fills_missing_fields(c: BookmarkView, f: BookmarkView)
    ensures
        ({
            let m = merge_spec(c, f);
            &&& (c.title.len() == 0 || c.title == c.url) ==> m.title == f.title
            &&& c.description is None ==> m.description == f.description
            &&& c.authors.len() == 0 ==> m.authors == f.authors
            &&& c.site is None ==> m.site == f.site
            &&& c.year is None ==> m.year == f.year
        }),
{
}

proof fn lemma_some_first_match(t: Seq<char>, urls: Seq<Seq<char>>, k: int)
    requires
        0 <= k < urls.len(),
        canonical_key_spec(urls[k]) == Some(t),
    ensures
        exists|i: int| #[trigger] first_match(t, urls, i),
    decreases k,
{
    if forall|j: int| 0 <= j < k ==> canonical_key_spec(#[trigger] urls[j]) != Some(t) {
        assert(first_match(t, urls, k));
    } else {
        let j = choose|j: int| 0 <= j < k && canonical_key_spec(#[trigger] urls[j]) == Some(t);
        lemma_some_first_match(t, urls, j);
    }
}

/// Capturing a page that the library already holds does not save it again:
/// after a URL was saved as a new bookmark in `dir` (its normalized URL
/// added to the saved entries), capturing the same input again finds that
/// directory.
pub proof fn law_capture_twice(
    input: Seq<char>,
    entries: Seq<(String, String)>,
    today: Seq<char>,
    r: Result<CapturePlan, UrlError>,
    dir: String,
    url: String,
    later: Seq<char>,
    r2: Result<CapturePlan, UrlError>,
)
    requires
        plan_ok(input, entries, today, r),
        r matches Ok(CapturePlan::Create(b)) && url@ == b@.url,
        plan_ok(input, entries.push((dir, url)), later, r2),
    ensures
        r2 matches Ok(CapturePlan::Existing(d)) && d@ == dir@,
{
    let n = url@;
    let t = canonical_key_spec(n)->0;
    let e2 = entries.push((dir, url));
    let urls = entry_urls(entries);
    let urls2 = entry_urls(e2);
    assert(normalize_spec(input) == Ok::<Seq<char>, UrlError>(n));
    assert(urls2[entries.len() as int] == n);
    assert forall|j: int| 0 <= j < entries.len() implies canonical_key_spec(#[trigger] urls2[j]) != Some(t) by {
        assert(urls2[j] == urls[j]);
        if canonical_key_spec(urls[j]) == Some(t) {
            lemma_some_first_match(t, urls, j);
            let i = choose|i: int| #[trigger] first_match(t, urls, i);
            assert(saved_at(n, entries, i));
        }
    }
    assert(first_match(t, urls2, entries.len() as int));
    assert(saved_at(n, e2, entries.len() as int));
    if let Ok(CapturePlan::Existing(d)) = r2 {
        let i = choose|i: int| #[trigger] saved_at(n, e2, i) && d@ == e2[i].0@;
        if i < entries.len() {
            assert(canonical_key_spec(urls2[i]) == Some(t));
        }
    }
}

} // verus!
