use vstd::prelude::*;

use crate::enrich::or_empty;
use crate::listing::Entry;
use crate::model::{opt_view, strs_view, BookmarkView};
use crate::sorting::{keys_view, law_sort_by_keys, precedes, sort_by_keys, sort_indices, KeyView, SortKey};
use crate::text::{
    chars_of, ends_with, ends_with_vec, eq_vec, lit, lowercase_vec, seq_less, slice_vec,
    str_lowercase, string_of,
};
use crate::tui::SortMode;

verus! {

// ---------------------------------------------------------------------------
// Fuzzy matching
// ---------------------------------------------------------------------------

/// The score `nucleo_matcher` gives `haystack` for the search text
/// `pattern` (parsed into words, case ignored, Unicode normalised), or
/// `None` when it does not match.
pub uninterp spec fn fuzzy_match_score(pattern: Seq<char>, haystack: Seq<char>) -> Option<u32>;

/// Scores `haystack` against the search text `pattern` with
/// `nucleo_matcher`: `Pattern::parse` (case ignored, smart normalisation)
/// and `Pattern::score` under the default matcher configuration. The
/// result is taken as a function of the two texts; nothing more is claimed.
#[verifier::external_body]
fn fuzzy_score(pattern: &str, haystack: &str) -> (r: Option<u32>)
    ensures
        r == fuzzy_match_score(pattern@, haystack@),
{
    let parsed = nucleo_matcher::pattern::Pattern::parse(
        pattern,
        nucleo_matcher::pattern::CaseMatching::Ignore,
        nucleo_matcher::pattern::Normalization::Smart,
    );
    let mut matcher = nucleo_matcher::Matcher::new(nucleo_matcher::Config::DEFAULT);
    let mut buf = Vec::new();
    parsed.score(nucleo_matcher::Utf32Str::new(haystack, &mut buf), &mut matcher)
}

// ---------------------------------------------------------------------------
// The shown list
// ---------------------------------------------------------------------------

/// Whether a bookmark passes the tag filter: there is none, or the bookmark
/// carries that tag.
pub open spec fn tag_ok(b: BookmarkView, tag: Option<Seq<char>>) -> bool {
    match tag {
        None => true,
        Some(t) => b.tags.contains(t),
    }
}

/// The positions of the entries that pass the tag filter, in order.
pub open spec fn tag_filtered(es: Seq<Entry>, tag: Option<Seq<char>>) -> Seq<usize>
    decreases es.len(),
{
    if es.len() == 0 {
        seq![]
    } else {
        let rest = tag_filtered(es.drop_last(), tag);
        if tag_ok(es.last().bookmark@, tag) {
            rest.push((es.len() - 1) as usize)
        } else {
            rest
        }
    }
}

/// The search score of entry `i`, if it matches the search text.
pub open spec fn entry_score(es: Seq<Entry>, pattern: Seq<char>, i: int) -> Option<u32> {
    fuzzy_match_score(pattern, es[i].display@)
}

/// The candidates `cand` whose entries match the search text, in order.
pub open spec fn matching(es: Seq<Entry>, pattern: Seq<char>, cand: Seq<usize>) -> Seq<usize>
    decreases cand.len(),
{
    if cand.len() == 0 {
        seq![]
    } else {
        let rest = matching(es, pattern, cand.drop_last());
        if entry_score(es, pattern, cand.last() as int) is Some {
            rest.push(cand.last())
        } else {
            rest
        }
    }
}

/// The key an entry is ordered by under a sort mode: the date added, the
/// lowercased site, the lowercased title, or the year (a missing text
/// counts as empty, a missing year as 0).
pub open spec fn mode_key(b: BookmarkView, mode: SortMode) -> KeyView {
    match mode {
        SortMode::Added => KeyView::Text(or_empty(b.added)),
        SortMode::Site => KeyView::Text(str_lowercase(or_empty(b.site))),
        SortMode::Title => KeyView::Text(str_lowercase(b.title)),
        SortMode::Year => KeyView::Number(
            match b.year {
                Some(y) => y as nat,
                None => 0,
            },
        ),
    }
}

/// Whether a sort mode puts larger keys first: newest added and latest year
/// first; sites and titles alphabetically.
pub open spec fn mode_desc(mode: SortMode) -> bool {
    mode is Added || mode is Year
}

pub open spec fn mode_keys(es: Seq<Entry>, mode: SortMode) -> Seq<KeyView> {
    Seq::new(es.len(), |i: int| mode_key(es[i].bookmark@, mode))
}

pub open spec fn score_keys(es: Seq<Entry>, pattern: Seq<char>) -> Seq<KeyView> {
    Seq::new(
        es.len(),
        |i: int|
            KeyView::Number(
                match entry_score(es, pattern, i) {
                    Some(s) => s as nat,
                    None => 0,
                },
            ),
    )
}

/// The entries the browser shows, by position: those passing the tag
/// filter; with no search text, ordered stably by the sort mode's key; with
/// search text, only those that match it, best score first (ties keep
/// their order).
pub open spec fn filter_spec(
    es: Seq<Entry>,
    tag: Option<Seq<char>>,
    pattern: Seq<char>,
    mode: SortMode,
) -> Seq<usize> {
    let cand = tag_filtered(es, tag);
    if pattern.len() == 0 {
        sort_by_keys(mode_keys(es, mode), mode_desc(mode), cand)
    } else {
        sort_by_keys(score_keys(es, pattern), true, matching(es, pattern, cand))
    }
}

fn has_tag(tags: &Vec<String>, tag: &Vec<char>) -> (r: bool)
    ensures
        r == strs_view(*tags).contains(tag@),
{
    let ghost tv = strs_view(*tags);
    let mut i: usize = 0;
    while i < tags.len()
        invariant
            i <= tags.len(),
            tv == strs_view(*tags),
            forall|j: int| 0 <= j < i ==> tv[j] != tag@,
        decreases tags.len() - i,
    {
        if eq_vec(&chars_of(tags[i].as_str()), tag) {
            assert(tv[i as int] == tag@);
            return true;
        }
        i += 1;
    }
    false
}

proof fn lemma_tag_filtered_bounds(es: Seq<Entry>, tag: Option<Seq<char>>)
    requires
        es.len() <= usize::MAX,
    ensures
        forall|k: int|
            0 <= k < tag_filtered(es, tag).len() ==> #[trigger] tag_filtered(es, tag)[k] < es.len(),
    decreases es.len(),
{
    if es.len() > 0 {
        let rest = tag_filtered(es.drop_last(), tag);
        lemma_tag_filtered_bounds(es.drop_last(), tag);
        assert forall|k: int| 0 <= k < tag_filtered(es, tag).len() implies #[trigger] tag_filtered(
            es,
            tag,
        )[k] < es.len() by {
            if k < rest.len() {
                assert(rest[k] < es.drop_last().len());
            }
        }
    }
}

proof fn lemma_matching_bounds(es: Seq<Entry>, pattern: Seq<char>, cand: Seq<usize>, n: nat)
    requires
        forall|k: int| 0 <= k < cand.len() ==> #[trigger] cand[k] < n,
    ensures
        forall|k: int|
            0 <= k < matching(es, pattern, cand).len() ==> #[trigger] matching(es, pattern, cand)[k]
                < n,
    decreases cand.len(),
{
    if cand.len() > 0 {
        let rest = matching(es, pattern, cand.drop_last());
        lemma_matching_bounds(es, pattern, cand.drop_last(), n);
        assert forall|k: int| 0 <= k < matching(es, pattern, cand).len() implies #[trigger] matching(
            es,
            pattern,
            cand,
        )[k] < n by {
            if k < rest.len() {
                assert(rest[k] < n);
            } else {
                assert(cand[cand.len() - 1] < n);
            }
        }
    }
}

fn mode_key_exec(e: &Entry, mode: SortMode) -> (r: SortKey)
    ensures
        r@ == mode_key(e.bookmark@, mode),
{
    match mode {
        SortMode::Added => match &e.bookmark.added {
            Some(a) => SortKey::Text(chars_of(a.as_str())),
            None => SortKey::Text(Vec::new()),
        },
        SortMode::Site => {
            let site = match &e.bookmark.site {
                Some(s) => chars_of(s.as_str()),
                None => Vec::new(),
            };
            assert(site@ == or_empty(opt_view(e.bookmark.site)));
            SortKey::Text(lowercase_vec(&site))
        },
        SortMode::Title => SortKey::Text(lowercase_vec(&chars_of(e.bookmark.title.as_str()))),
        SortMode::Year => SortKey::Number(
            match e.bookmark.year {
                Some(y) => y as u64,
                None => 0,
            },
        ),
    }
}

/// The positions of the entries to show (see `filter_spec`).
pub fn filter_entries(
    entries: &Vec<Entry>,
    tag_filter: &Option<String>,
    filter: &str,
    mode: SortMode,
) -> (r: Vec<usize>)
    ensures
        r@ == filter_spec(entries@, opt_view(*tag_filter), filter@, mode),
        forall|k: int| 0 <= k < r.len() ==> #[trigger] r@[k] < entries.len(),
{
    let ghost es = entries@;
    let ghost tag = opt_view(*tag_filter);
    let tag_chars: Option<Vec<char>> = match tag_filter {
        Some(t) => Some(chars_of(t.as_str())),
        None => None,
    };
    // The entries that pass the tag filter.
    let mut cand: Vec<usize> = Vec::new();
    let mut i: usize = 0;
    while i < entries.len()
        invariant
            i <= entries.len(),
            es == entries@,
            tag == opt_view(*tag_filter),
            match tag_chars {
                Some(t) => tag == Some(t@),
                None => tag is None,
            },
            cand@ == tag_filtered(es.take(i as int), tag),
        decreases entries.len() - i,
    {
        let ok = match &tag_chars {
            Some(t) => has_tag(&entries[i].bookmark.tags, t),
            None => true,
        };
        proof {
            assert(es.take(i + 1).drop_last() =~= es.take(i as int));
            assert(es.take(i + 1).last() == es[i as int]);
        }
        if ok {
            cand.push(i);
        }
        i += 1;
    }
    proof {
        assert(es.take(entries.len() as int) =~= es);
        lemma_tag_filtered_bounds(es, tag);
    }
    let pattern = chars_of(filter);
    if pattern.len() == 0 {
        let mut keys: Vec<SortKey> = Vec::new();
        let mut j: usize = 0;
        while j < entries.len()
            invariant
                j <= entries.len(),
                es == entries@,
                keys.len() == j,
                forall|k: int| 0 <= k < j ==> (#[trigger] keys@[k])@ == mode_key(es[k].bookmark@, mode),
            decreases entries.len() - j,
        {
            keys.push(mode_key_exec(&entries[j], mode));
            j += 1;
        }
        assert(keys_view(keys@) =~= mode_keys(es, mode));
        sort_indices(&keys, matches!(mode, SortMode::Added | SortMode::Year), &cand)
    } else {
        let mut keys: Vec<SortKey> = Vec::new();
        let mut scores: Vec<Option<u32>> = Vec::new();
        let mut j: usize = 0;
        while j < entries.len()
            invariant
                j <= entries.len(),
                es == entries@,
                keys.len() == j,
                scores.len() == j,
                forall|k: int| 0 <= k < j ==> #[trigger] scores@[k] == entry_score(es, filter@, k),
                forall|k: int| 0 <= k < j ==> (#[trigger] keys@[k])@ == score_keys(es, filter@)[k],
            decreases entries.len() - j,
        {
            let s = fuzzy_score(filter, entries[j].display.as_str());
            let key = match s {
                Some(v) => SortKey::Number(v as u64),
                None => SortKey::Number(0),
            };
            keys.push(key);
            scores.push(s);
            j += 1;
        }
        assert(keys_view(keys@) =~= score_keys(es, filter@));
        let mut matched: Vec<usize> = Vec::new();
        let mut q: usize = 0;
        while q < cand.len()
            invariant
                q <= cand.len(),
                es == entries@,
                scores.len() == entries.len(),
                forall|k: int| 0 <= k < entries.len() ==> #[trigger] scores@[k] == entry_score(es, filter@, k),
                forall|k: int| 0 <= k < cand.len() ==> #[trigger] cand@[k] < entries.len(),
                matched@ == matching(es, filter@, cand@.take(q as int)),
            decreases cand.len() - q,
        {
            let c = cand[q];
            proof {
                assert(cand@.take(q + 1).drop_last() =~= cand@.take(q as int));
                assert(cand@.take(q + 1).last() == c);
            }
            if scores[c].is_some() {
                matched.push(c);
            }
            q += 1;
        }
        proof {
            assert(cand@.take(cand.len() as int) =~= cand@);
            lemma_matching_bounds(es, filter@, cand@, entries.len() as nat);
        }
        sort_indices(&keys, true, &matched)
    }
}

// ---------------------------------------------------------------------------
// Theme names
// ---------------------------------------------------------------------------

/// The theme names among a directory's file names: each name ending in
/// `.toml`, without that suffix, in the order listed.
pub open spec fn toml_stems(files: Seq<Seq<char>>) -> Seq<Seq<char>>
    decreases files.len(),
{
    if files.len() == 0 {
        seq![]
    } else {
        let rest = toml_stems(files.drop_last());
        let f = files.last();
        if ends_with(f, ".toml"@) {
            rest.push(f.take(f.len() - 5))
        } else {
            rest
        }
    }
}

pub open spec fn text_keys(names: Seq<Seq<char>>) -> Seq<KeyView> {
    Seq::new(names.len(), |i: int| KeyView::Text(names[i]))
}

pub open spec fn index_range(n: nat) -> Seq<usize> {
    Seq::new(n, |i: int| i as usize)
}

/// The themes the theme picker lists: the `.toml` stems of the file names,
/// sorted.
pub open spec fn theme_names_spec(files: Seq<Seq<char>>) -> Seq<Seq<char>> {
    let stems = toml_stems(files);
    sort_by_keys(text_keys(stems), false, index_range(stems.len())).map_values(
        |i: usize| stems[i as int],
    )
}

/// The names of the themes in a directory holding the files `file_names`.
pub fn theme_names(file_names: &Vec<String>) -> (r: Vec<String>)
    ensures
        strs_view(r) == theme_names_spec(strs_view(*file_names)),
{
    let ghost files = strs_view(*file_names);
    let suffix = lit(".toml");
    proof {
        reveal_strlit(".toml");
    }
    let mut stems: Vec<Vec<char>> = Vec::new();
    let mut i: usize = 0;
    while i < file_names.len()
        invariant
            i <= file_names.len(),
            files == strs_view(*file_names),
            suffix@ == ".toml"@,
            suffix.len() == 5,
            stems@.map_values(|v: Vec<char>| v@) == toml_stems(files.take(i as int)),
        decreases file_names.len() - i,
    {
        let f = chars_of(file_names[i].as_str());
        proof {
            assert(files.take(i + 1).drop_last() =~= files.take(i as int));
            assert(files.take(i + 1).last() == f@);
        }
        if ends_with_vec(&f, &suffix) {
            let stem = slice_vec(&f, 0, f.len() - 5);
            assert(stem@ =~= f@.take(f@.len() - 5));
            stems.push(stem);
        }
        i += 1;
        assert(stems@.map_values(|v: Vec<char>| v@) =~= toml_stems(files.take(i as int)));
    }
    assert(files.take(file_names.len() as int) =~= files);
    let ghost sv = stems@.map_values(|v: Vec<char>| v@);
    let mut keys: Vec<SortKey> = Vec::new();
    let mut items: Vec<usize> = Vec::new();
    let mut j: usize = 0;
    while j < stems.len()
        invariant
            j <= stems.len(),
            sv == stems@.map_values(|v: Vec<char>| v@),
            keys.len() == j,
            items@ == index_range(j as nat),
            forall|k: int| 0 <= k < j ==> (#[trigger] keys@[k])@ == KeyView::Text(sv[k]),
        decreases stems.len() - j,
    {
        keys.push(SortKey::Text(slice_vec(&stems[j], 0, stems[j].len())));
        assert(stems@[j as int]@.subrange(0, stems[j as int]@.len() as int) =~= stems@[j as int]@);
        items.push(j);
        j += 1;
        assert(items@ =~= index_range(j as nat));
    }
    assert(keys_view(keys@) =~= text_keys(sv));
    let order = sort_indices(&keys, false, &items);
    let mut out: Vec<String> = Vec::new();
    let mut k: usize = 0;
    while k < order.len()
        invariant
            k <= order.len(),
            sv == stems@.map_values(|v: Vec<char>| v@),
            keys.len() == stems.len(),
            forall|m: int| 0 <= m < order.len() ==> #[trigger] order@[m] < keys.len(),
            strs_view(out) == order@.take(k as int).map_values(|x: usize| sv[x as int]),
        decreases order.len() - k,
    {
        let x = order[k];
        let name = string_of(&stems[x]);
        assert(name@ == sv[x as int]);
        let ghost before = strs_view(out);
        out.push(name);
        assert(strs_view(out) =~= before.push(sv[x as int]));
        assert(order@.take(k + 1) =~= order@.take(k as int).push(x));
        k += 1;
        assert(strs_view(out) =~= order@.take(k as int).map_values(|x: usize| sv[x as int]));
    }
    assert(order@.take(order.len() as int) =~= order@);
    out
}

// ---------------------------------------------------------------------------
// What the shown list holds
// ---------------------------------------------------------------------------

proof fn lemma_tag_filtered_members(es: Seq<Entry>, tag: Option<Seq<char>>)
    requires
        es.len() <= usize::MAX,
    ensures
        forall|x: usize|
            #[trigger] tag_filtered(es, tag).contains(x) <==> (x < es.len() && tag_ok(
                es[x as int].bookmark@,
                tag,
            )),
    decreases es.len(),
{
    if es.len() > 0 {
        let prev = es.drop_last();
        lemma_tag_filtered_members(prev, tag);
        let r = tag_filtered(prev, tag);
        let last = (es.len() - 1) as usize;
        assert forall|x: usize|
            #[trigger] tag_filtered(es, tag).contains(x) <==> (x < es.len() && tag_ok(
                es[x as int].bookmark@,
                tag,
            )) by {
            if x < last {
                assert(prev[x as int] == es[x as int]);
            }
            if tag_ok(es.last().bookmark@, tag) {
                let full = r.push(last);
                if r.contains(x) {
                    let w = choose|w: int| 0 <= w < r.len() && r[w] == x;
                    assert(full[w] == x);
                }
                if full.contains(x) && x != last {
                    let w = choose|w: int| 0 <= w < full.len() && full[w] == x;
                    assert(w < r.len());
                    assert(r[w] == x);
                }
                if x == last {
                    assert(full[r.len() as int] == x);
                }
            }
        }
    }
}

proof fn lemma_matching_members(es: Seq<Entry>, pattern: Seq<char>, cand: Seq<usize>)
    ensures
        forall|x: usize|
            #[trigger] matching(es, pattern, cand).contains(x) <==> (cand.contains(x) && entry_score(
                es,
                pattern,
                x as int,
            ) is Some),
    decreases cand.len(),
{
    if cand.len() > 0 {
        let prev = cand.drop_last();
        lemma_matching_members(es, pattern, prev);
        let r = matching(es, pattern, prev);
        assert forall|x: usize|
            #[trigger] matching(es, pattern, cand).contains(x) <==> (cand.contains(x) && entry_score(
                es,
                pattern,
                x as int,
            ) is Some) by {
            if prev.contains(x) {
                let w = choose|w: int| 0 <= w < prev.len() && prev[w] == x;
                assert(cand[w] == x);
            }
            if cand.contains(x) && x != cand.last() {
                let w = choose|w: int| 0 <= w < cand.len() && cand[w] == x;
                assert(w < prev.len());
                assert(prev[w] == x);
            }
            if entry_score(es, pattern, cand.last() as int) is Some {
                let full = r.push(cand.last());
                if r.contains(x) {
                    let w = choose|w: int| 0 <= w < r.len() && r[w] == x;
                    assert(full[w] == x);
                }
                if full.contains(x) && x != cand.last() {
                    let w = choose|w: int| 0 <= w < full.len() && full[w] == x;
                    assert(w < r.len());
                    assert(r[w] == x);
                }
                if x == cand.last() {
                    assert(full[r.len() as int] == x);
                }
            }
            if x == cand.last() {
                assert(cand[cand.len() - 1] == x);
            }
        }
    }
}

/// The browser shows the entries that pass the tag filter (and, with search
/// text, match it) and no others; sorting only reorders them.
pub proof fn law_filter_shows_exactly_the_passing_entries(
    es: Seq<Entry>,
    tag: Option<Seq<char>>,
    pattern: Seq<char>,
    mode: SortMode,
)
    requires
        es.len() <= usize::MAX,
    ensures
        forall|x: usize|
            #[trigger] filter_spec(es, tag, pattern, mode).contains(x) <==> (x < es.len() && tag_ok(
                es[x as int].bookmark@,
                tag,
            ) && (pattern.len() == 0 || entry_score(es, pattern, x as int) is Some)),
        filter_spec(es, tag, pattern, mode).to_multiset() == if pattern.len() == 0 {
            tag_filtered(es, tag).to_multiset()
        } else {
            matching(es, pattern, tag_filtered(es, tag)).to_multiset()
        },
{
    broadcast use vstd::seq_lib::group_to_multiset_ensures;

    let cand = tag_filtered(es, tag);
    lemma_tag_filtered_members(es, tag);
    lemma_matching_members(es, pattern, cand);
    let shown = filter_spec(es, tag, pattern, mode);
    let base = if pattern.len() == 0 {
        cand
    } else {
        matching(es, pattern, cand)
    };
    if pattern.len() == 0 {
        law_sort_by_keys(mode_keys(es, mode), mode_desc(mode), cand);
    } else {
        law_sort_by_keys(score_keys(es, pattern), true, base);
    }
    assert forall|x: usize| #[trigger] shown.contains(x) <==> base.contains(x) by {
        assert(shown.to_multiset().count(x) == base.to_multiset().count(x));
    }
}


/// With search text, the browser lists the matches best first: every shown
/// entry matches, and an entry shown before another has a fuzzy score at
/// least as high.
pub proof fn law_search_lists_best_match_first(
    es: Seq<Entry>,
    tag: Option<Seq<char>>,
    pattern: Seq<char>,
    mode: SortMode,
)
    requires
        es.len() <= usize::MAX,
        pattern.len() > 0,
    ensures
        ({
            let shown = filter_spec(es, tag, pattern, mode);
            &&& forall|p: int|
                0 <= p < shown.len() ==> fuzzy_match_score(pattern, es[#[trigger] shown[p] as int].display@) is Some
            &&& forall|p: int, q: int|
                0 <= p < q < shown.len() ==> fuzzy_match_score(pattern, es[#[trigger] shown[p] as int].display@)->0
                    >= fuzzy_match_score(pattern, es[#[trigger] shown[q] as int].display@)->0
        }),
{
    let shown = filter_spec(es, tag, pattern, mode);
    let keys = score_keys(es, pattern);
    let cand = tag_filtered(es, tag);
    law_filter_shows_exactly_the_passing_entries(es, tag, pattern, mode);
    law_sort_by_keys(keys, true, matching(es, pattern, cand));
    assert forall|p: int| 0 <= p < shown.len() implies fuzzy_match_score(pattern, es[#[trigger] shown[p] as int].display@) is Some by {
        assert(shown.contains(shown[p]));
    }
    assert forall|p: int, q: int|
        0 <= p < q < shown.len() implies fuzzy_match_score(pattern, es[#[trigger] shown[p] as int].display@)->0
            >= fuzzy_match_score(pattern, es[#[trigger] shown[q] as int].display@)->0 by {
        assert(shown.contains(shown[p]));
        assert(shown.contains(shown[q]));
        assert(!precedes(keys, true, shown[q], shown[p]));
    }
}


/// The year an entry is ordered by (0 when it has none).
pub open spec fn year_or_zero(b: BookmarkView) -> nat {
    match b.year {
        Some(y) => y as nat,
        None => 0,
    }
}

/// Without search text the browser lists the entries in the chosen order:
/// for any entry shown before another, it was added no earlier (by its date
/// text), its year is no earlier, or its site or title (lowercased) comes
/// no later alphabetically.
pub proof fn law_list_follows_sort_order(es: Seq<Entry>, tag: Option<Seq<char>>, mode: SortMode)
    requires
        es.len() <= usize::MAX,
    ensures
        ({
            let shown = filter_spec(es, tag, seq![], mode);
            forall|p: int, q: int|
                0 <= p < q < shown.len() ==> {
                    let x = es[#[trigger] shown[p] as int].bookmark@;
                    let y = es[#[trigger] shown[q] as int].bookmark@;
                    match mode {
                        SortMode::Added => !seq_less(or_empty(x.added), or_empty(y.added)),
                        SortMode::Year => year_or_zero(x) >= year_or_zero(y),
                        SortMode::Site => !seq_less(
                            str_lowercase(or_empty(y.site)),
                            str_lowercase(or_empty(x.site)),
                        ),
                        SortMode::Title => !seq_less(str_lowercase(y.title), str_lowercase(x.title)),
                    }
                }
        }),
{
    let shown = filter_spec(es, tag, seq![], mode);
    let keys = mode_keys(es, mode);
    let cand = tag_filtered(es, tag);
    law_filter_shows_exactly_the_passing_entries(es, tag, seq![], mode);
    law_sort_by_keys(keys, mode_desc(mode), cand);
    assert forall|p: int, q: int| 0 <= p < q < shown.len() implies {
        let x = es[#[trigger] shown[p] as int].bookmark@;
        let y = es[#[trigger] shown[q] as int].bookmark@;
        match mode {
            SortMode::Added => !seq_less(or_empty(x.added), or_empty(y.added)),
            SortMode::Year => year_or_zero(x) >= year_or_zero(y),
            SortMode::Site => !seq_less(str_lowercase(or_empty(y.site)), str_lowercase(or_empty(x.site))),
            SortMode::Title => !seq_less(str_lowercase(y.title), str_lowercase(x.title)),
        }
    } by {
        assert(shown.contains(shown[p]));
        assert(shown.contains(shown[q]));
        assert(!precedes(keys, mode_desc(mode), shown[q], shown[p]));
    }
}

} // verus!
