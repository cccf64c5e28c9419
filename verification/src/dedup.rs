use vstd::prelude::*;

use crate::model::{strs_view, Bookmark, BookmarkView};
use crate::text::{
    all_ascii, ascii_lowercase,
    chars_of, concat_vec, decimal, decimal_vec, eq_vec, lit, lowercase_vec, slice_vec, starts_with, starts_with_vec, str_lowercase,
    string_of, trim, trim_vec,
};

verus! {

// ---------------------------------------------------------------------------
// Scoring the entries of a group
// ---------------------------------------------------------------------------

/// How complete a bookmark's metadata is: one point each for a title, a URL,
/// a description, authors, a site, a year, tags and an added date.
pub open spec fn score_spec(b: BookmarkView) -> nat {
    (if b.title.len() > 0 { 1nat } else { 0nat }) + (if b.url.len() > 0 { 1nat } else { 0nat })
        + (if b.description is Some { 1nat } else { 0nat }) + (if b.authors.len() > 0 {
        1nat
    } else {
        0nat
    }) + (if b.site is Some { 1nat } else { 0nat }) + (if b.year is Some { 1nat } else { 0nat })
        + (if b.tags.len() > 0 { 1nat } else { 0nat }) + (if b.added is Some { 1nat } else { 0nat })
}

pub fn metadata_score(b: &Bookmark) -> (r: u32)
    ensures
        r == score_spec(b@),
        r <= 8,
{
    let mut score: u32 = 0;
    if !b.title.as_str().is_empty() {
        score += 1;
    }
    if !b.url.as_str().is_empty() {
        score += 1;
    }
    if b.description.is_some() {
        score += 1;
    }
    if b.authors.len() > 0 {
        score += 1;
    }
    if b.site.is_some() {
        score += 1;
    }
    if b.year.is_some() {
        score += 1;
    }
    if b.tags.len() > 0 {
        score += 1;
    }
    if b.added.is_some() {
        score += 1;
    }
    score
}

/// The entry a duplicate group keeps by default: the last one with the
/// highest score (as `Iterator::max_by_key` picks).
pub open spec fn is_best(scores: Seq<u32>, i: int) -> bool {
    0 <= i < scores.len() && (forall|j: int| 0 <= j < scores.len() ==> scores[j] <= scores[i])
        && forall|j: int| i < j < scores.len() ==> scores[j] < scores[i]
}

pub fn best_entry(scores: &Vec<u32>) -> (r: Option<usize>)
    ensures
        scores.len() == 0 <==> r is None,
        r matches Some(i) ==> is_best(scores@, i as int),
{
    if scores.len() == 0 {
        return None;
    }
    let mut best: usize = 0;
    let mut i: usize = 1;
    while i < scores.len()
        invariant
            1 <= i <= scores.len(),
            best < i,
            forall|j: int| 0 <= j < i ==> scores@[j] <= scores@[best as int],
            forall|j: int| best < j < i ==> scores@[j] < scores@[best as int],
        decreases scores.len() - i,
    {
        if scores[i] >= scores[best] {
            best = i;
        }
        i += 1;
    }
    Some(best)
}

/// What an entry looks like when its `info.toml` cannot be read: titled
/// "Unknown", with nothing else.
pub open spec fn unknown_spec() -> BookmarkView {
    BookmarkView {
        url: seq![],
        title: "Unknown"@,
        description: None,
        authors: seq![],
        site: None,
        year: None,
        tags: seq![],
        added: None,
        files: seq![],
        preview: None,
    }
}

/// An entry of a duplicate group: its directory, directory name, metadata and
/// score.
pub struct DedupEntry {
    pub path: String,
    pub dir_name: String,
    pub bookmark: Bookmark,
    pub score: u32,
}

impl DedupEntry {
    /// The entry for a directory, given what reading its `info.toml` gave.
    pub fn from_read(path: String, dir_name: String, info: Option<Bookmark>) -> (r: DedupEntry)
        ensures
            r.path@ == path@,
            r.dir_name@ == dir_name@,
            r.bookmark@ == match info {
                Some(b) => b@,
                None => unknown_spec(),
            },
            r.score == score_spec(r.bookmark@),
    {
        let bookmark = match info {
            Some(b) => b,
            None => {
                let b = Bookmark {
                    url: String::new(),
                    title: "Unknown".to_owned(),
                    description: None,
                    authors: Vec::new(),
                    site: None,
                    year: None,
                    tags: Vec::new(),
                    added: None,
                    files: Vec::new(),
                    preview: None,
                };
                proof {
                    reveal_strlit("Unknown");
                    assert(strs_view(b.authors) =~= Seq::<Seq<char>>::empty());
                    assert(strs_view(b.tags) =~= Seq::<Seq<char>>::empty());
                    assert(strs_view(b.files) =~= Seq::<Seq<char>>::empty());
                }
                assert(b@ =~= unknown_spec());
                b
            },
        };
        let score = metadata_score(&bookmark);
        DedupEntry { path, dir_name, bookmark, score }
    }
}

/// Lowercased URL text without trailing slashes, an `https://` or
/// `http://` scheme, or `www.`.
pub open spec fn strip_url_parts(low: Seq<char>) -> Seq<char> {
    let s = crate::urls::trim_end_slashes(low);
    let s = if starts_with(s, "https://"@) {
        s.skip(8)
    } else if starts_with(s, "http://"@) {
        s.skip(7)
    } else {
        s
    };
    if starts_with(s, "www."@) {
        s.skip(4)
    } else {
        s
    }
}

/// A URL reduced for finding duplicates: trimmed and lowercased, without
/// trailing slashes, an `https://` or `http://` scheme, or `www.`.
pub open spec fn canonicalize_spec(url: Seq<char>) -> Seq<char> {
    strip_url_parts(str_lowercase(trim(url)))
}

/// Removing trailing slashes keeps a prefix: everything up to the last
/// character that is not `/`.
proof fn lemma_trim_end_slashes_prefix(p: Seq<char>)
    ensures
        ({
            let b = crate::urls::trim_end_slashes(p).len() as int;
            &&& b <= p.len()
            &&& crate::urls::trim_end_slashes(p) == p.take(b)
            &&& forall|k: int| b <= k < p.len() ==> p[k] == '/'
            &&& (b == 0 || p[b - 1] != '/')
        }),
    decreases p.len(),
{
    if p.len() > 0 && p.last() == '/' {
        lemma_trim_end_slashes_prefix(p.drop_last());
        let b = crate::urls::trim_end_slashes(p).len() as int;
        assert(p.drop_last().take(b) =~= p.take(b));
        assert forall|k: int| b <= k < p.len() implies p[k] == '/' by {
            if k < p.len() - 1 {
                assert(p.drop_last()[k] == p[k]);
            }
        }
    } else {
        assert(p.take(p.len() as int) =~= p);
    }
}

/// The prefixes that reducing a URL for deduplication may remove: a scheme
/// `https://` or `http://`, then `www.`.
pub open spec fn removable_prefix(s: Seq<char>) -> bool {
    ||| s.len() == 0
    ||| s == "www."@
    ||| s == "http://"@
    ||| s == "https://"@
    ||| s == "http://"@ + "www."@
    ||| s == "https://"@ + "www."@
}

/// Reducing a URL for deduplication only cuts its lowercased, trimmed text
/// at both ends: at the end exactly the trailing slashes go, at the start at
/// most a scheme `https://` or `http://` and a `www.`; everything between,
/// the query included, is kept. So a URL that has no trailing slash, scheme
/// or `www.` is kept whole.
pub proof fn law_canonicalize_only_trims_ends(url: Seq<char>)
    ensures
        ({
            let low = str_lowercase(trim(url));
            let r = canonicalize_spec(url);
            &&& exists|a: int, b: int|
                0 <= a <= b <= low.len() && r == #[trigger] low.subrange(a, b) && removable_prefix(low.take(a))
                    && (forall|k: int| b <= k < low.len() ==> low[k] == '/') && (b == 0 || low[b - 1]
                    != '/')
            &&& (!(low.len() > 0 && low.last() == '/') && !starts_with(low, "https://"@)
                && !starts_with(low, "http://"@) && !starts_with(low, "www."@)) ==> r == low
        }),
{
    let low = str_lowercase(trim(url));
    let t = crate::urls::trim_end_slashes(low);
    lemma_trim_end_slashes_prefix(low);
    let b = t.len() as int;
    let k1: int = if starts_with(t, "https://"@) {
        8
    } else if starts_with(t, "http://"@) {
        7
    } else {
        0
    };
    reveal_strlit("https://");
    reveal_strlit("http://");
    reveal_strlit("www.");
    let s1 = t.skip(k1);
    assert(t.skip(0) =~= t);
    let k2: int = if starts_with(s1, "www."@) { 4 } else { 0 };
    assert(s1.skip(0) =~= s1);
    let a = k1 + k2;
    assert(canonicalize_spec(url) == s1.skip(k2));
    assert(s1.skip(k2) =~= low.subrange(a, b));
    if k1 == 8 {
        assert(low.take(8) =~= t.take(8));
        if k2 == 4 {
            assert(low.take(a) =~= "https://"@ + "www."@);
        } else {
            assert(low.take(a) =~= "https://"@);
        }
    } else if k1 == 7 {
        assert(low.take(7) =~= t.take(7));
        if k2 == 4 {
            assert(low.take(a) =~= "http://"@ + "www."@);
        } else {
            assert(low.take(a) =~= "http://"@);
        }
    } else {
        if k2 == 4 {
            assert(low.take(a) =~= t.take(4));
        } else {
            assert(low.take(a) =~= Seq::<char>::empty());
        }
    }
    assert(removable_prefix(low.take(a)));
    assert(0 <= a <= b <= low.len() && canonicalize_spec(url) == low.subrange(a, b));
    if !(low.len() > 0 && low.last() == '/') && !starts_with(low, "https://"@)
        && !starts_with(low, "http://"@) && !starts_with(low, "www."@) {
        assert(t == low);
        assert(low.subrange(0, low.len() as int) =~= low);
    }
}

pub fn canonicalize_url(url: &str) -> (r: String)
    ensures
        r@ == canonicalize_spec(url@),
        all_ascii(trim(url@)) ==> r@ == strip_url_parts(ascii_lowercase(trim(url@))),
{
    let low = lowercase_vec(&trim_vec(&chars_of(url)));
    let mut end = low.len();
    assert(low@.take(low.len() as int) =~= low@);
    while end > 0 && low[end - 1] == '/'
        invariant
            end <= low.len(),
            crate::urls::trim_end_slashes(low@) == crate::urls::trim_end_slashes(low@.take(end as int)),
        decreases end,
    {
        assert(low@.take(end as int).drop_last() =~= low@.take(end - 1));
        end -= 1;
    }
    let s = slice_vec(&low, 0, end);
    assert(s@ =~= low@.take(end as int));
    let https = lit("https://");
    let http = lit("http://");
    let www = lit("www.");
    proof {
        reveal_strlit("https://");
        reveal_strlit("http://");
        reveal_strlit("www.");
    }
    let s = if starts_with_vec(&s, &https) {
        slice_vec(&s, 8, s.len())
    } else if starts_with_vec(&s, &http) {
        slice_vec(&s, 7, s.len())
    } else {
        s
    };
    let s = if starts_with_vec(&s, &www) {
        slice_vec(&s, 4, s.len())
    } else {
        s
    };
    string_of(&s)
}

// ---------------------------------------------------------------------------
// Finding duplicate groups
// ---------------------------------------------------------------------------

/// The key a bookmark's URL groups it by, if the canonical URL is not empty.
pub open spec fn url_key(b: BookmarkView) -> Option<Seq<char>> {
    let c = canonicalize_spec(b.url);
    if c.len() > 0 {
        Some(c)
    } else {
        None
    }
}

/// The key a bookmark's title groups it by: trimmed and lowercased, if not
/// empty.
pub open spec fn title_key(b: BookmarkView) -> Option<Seq<char>> {
    let t = str_lowercase(trim(b.title));
    if t.len() > 0 {
        Some(t)
    } else {
        None
    }
}

/// The grouping key of each directory (none where its metadata could not
/// be read), by URL or by title.
pub open spec fn keys_of(infos: Seq<Option<BookmarkView>>, by_url: bool) -> Seq<Option<Seq<char>>> {
    Seq::new(
        infos.len(),
        |i: int|
            match infos[i] {
                Some(b) => if by_url {
                    url_key(b)
                } else {
                    title_key(b)
                },
                None => None,
            },
    )
}

/// The position of the group with key `key`, or -1.
pub open spec fn key_pos(groups: Seq<(Seq<char>, Seq<usize>)>, key: Seq<char>) -> int
    decreases groups.len(),
{
    if groups.len() == 0 {
        -1
    } else if groups[0].0 == key {
        0
    } else {
        let r = key_pos(groups.drop_first(), key);
        if r < 0 {
            -1
        } else {
            r + 1
        }
    }
}

/// `groups` with `i` added to the group of `key`, or a new group for it.
pub open spec fn add_member(groups: Seq<(Seq<char>, Seq<usize>)>, key: Seq<char>, i: usize) -> Seq<
    (Seq<char>, Seq<usize>),
> {
    let p = key_pos(groups, key);
    if p < 0 {
        groups.push((key, seq![i]))
    } else {
        groups.update(p, (key, groups[p].1.push(i)))
    }
}

/// The positions that share each key, grouped in the order the keys first
/// occur, each group in increasing order.
pub open spec fn group_by_key(keys: Seq<Option<Seq<char>>>) -> Seq<(Seq<char>, Seq<usize>)>
    decreases keys.len(),
{
    if keys.len() == 0 {
        seq![]
    } else {
        let g = group_by_key(keys.drop_last());
        match keys.last() {
            Some(k) => add_member(g, k, (keys.len() - 1) as usize),
            None => g,
        }
    }
}

/// The members of `list` not in `seen`, in order.
pub open spec fn unseen(list: Seq<usize>, seen: Set<usize>) -> Seq<usize>
    decreases list.len(),
{
    if list.len() == 0 {
        seq![]
    } else {
        let r = unseen(list.drop_last(), seen);
        if seen.contains(list.last()) {
            r
        } else {
            r.push(list.last())
        }
    }
}

/// The groups taken from `lists` in turn: of each, the members not taken
/// yet, when they are at least two; and all that is taken by then.
pub open spec fn pick_groups(lists: Seq<(Seq<char>, Seq<usize>)>, seen: Set<usize>) -> (Seq<Seq<usize>>, Set<usize>)
    decreases lists.len(),
{
    if lists.len() == 0 {
        (seq![], seen)
    } else {
        let (g, s) = pick_groups(lists.drop_last(), seen);
        let f = unseen(lists.last().1, s);
        if f.len() > 1 {
            (g.push(f), s.union(f.to_set()))
        } else {
            (g, s)
        }
    }
}

/// The duplicate groups of a library whose directories hold `infos`: first
/// the groups of directories sharing a canonical URL, then those sharing a
/// title among the directories not yet grouped; groups of one are left out.
pub open spec fn duplicate_groups_spec(infos: Seq<Option<BookmarkView>>) -> Seq<Seq<usize>> {
    let (by_url, taken) = pick_groups(group_by_key(keys_of(infos, true)), Set::empty());
    let (by_title, _) = pick_groups(group_by_key(keys_of(infos, false)), taken);
    by_url + by_title
}

pub open spec fn infos_view(infos: Seq<Option<Bookmark>>) -> Seq<Option<BookmarkView>> {
    infos.map_values(|o: Option<Bookmark>| match o {
        Some(b) => Some(b@),
        None => None,
    })
}

pub open spec fn groups_view_of(names: Seq<Seq<char>>, members: Seq<Vec<usize>>) -> Seq<(Seq<char>, Seq<usize>)> {
    Seq::new(names.len(), |q: int| (names[q], members[q]@))
}

pub open spec fn groups_view(keys: Seq<Vec<char>>, members: Seq<Vec<usize>>) -> Seq<(Seq<char>, Seq<usize>)> {
    Seq::new(keys.len(), |q: int| (keys[q]@, members[q]@))
}

proof fn lemma_key_pos(groups: Seq<(Seq<char>, Seq<usize>)>, key: Seq<char>, p: int)
    requires
        0 <= p <= groups.len(),
        forall|q: int| 0 <= q < p ==> (#[trigger] groups[q]).0 != key,
        p == groups.len() || groups[p].0 == key,
    ensures
        key_pos(groups, key) == if p == groups.len() { -1 } else { p },
    decreases groups.len(),
{
    if groups.len() > 0 && p > 0 {
        assert forall|q: int| 0 <= q < p - 1 implies (#[trigger] groups.drop_first()[q]).0 != key by {
            assert(groups.drop_first()[q] == groups[q + 1]);
        }
        if p < groups.len() {
            assert(groups.drop_first()[p - 1] == groups[p]);
        }
        assert(groups[0].0 != key);
        lemma_key_pos(groups.drop_first(), key, p - 1);
    }
}

fn copy_indices(v: &Vec<usize>) -> (r: Vec<usize>)
    ensures
        r@ == v@,
{
    let mut out: Vec<usize> = Vec::new();
    let mut i: usize = 0;
    while i < v.len()
        invariant
            i <= v.len(),
            out@ == v@.take(i as int),
        decreases v.len() - i,
    {
        out.push(v[i]);
        i += 1;
        assert(out@ =~= v@.take(i as int));
    }
    assert(v@.take(v.len() as int) =~= v@);
    out
}

/// Groups the positions by key (see `group_by_key`).
fn group_positions(keys: &Vec<Option<Vec<char>>>) -> (r: (Vec<Vec<char>>, Vec<Vec<usize>>))
    ensures
        r.0.len() == r.1.len(),
        groups_view(r.0@, r.1@) == group_by_key(
            keys@.map_values(|k: Option<Vec<char>>| match k {
                Some(v) => Some(v@),
                None => None,
            }),
        ),
{
    let ghost kv = keys@.map_values(|k: Option<Vec<char>>| match k {
        Some(v) => Some(v@),
        None => None,
    });
    let mut names: Vec<Vec<char>> = Vec::new();
    let mut members: Vec<Vec<usize>> = Vec::new();
    let mut i: usize = 0;
    while i < keys.len()
        invariant
            i <= keys.len(),
            kv == keys@.map_values(|k: Option<Vec<char>>| match k {
                Some(v) => Some(v@),
                None => None,
            }),
            names.len() == members.len(),
            groups_view(names@, members@) == group_by_key(kv.take(i as int)),
        decreases keys.len() - i,
    {
        proof {
            assert(kv.take(i + 1).drop_last() =~= kv.take(i as int));
            assert(kv.take(i + 1).last() == kv[i as int]);
        }
        match &keys[i] {
            Some(k) => {
                let ghost g = groups_view(names@, members@);
                let mut p: usize = 0;
                while p < names.len() && !eq_vec(&names[p], k)
                    invariant
                        p <= names.len(),
                        names.len() == members.len(),
                        g == groups_view(names@, members@),
                        forall|q: int| 0 <= q < p ==> (#[trigger] g[q]).0 != k@,
                    decreases names.len() - p,
                {
                    p += 1;
                }
                proof {
                    lemma_key_pos(g, k@, p as int);
                }
                if p == names.len() {
                    let name = slice_vec(k, 0, k.len());
                    assert(name@ =~= k@);
                    let mut first: Vec<usize> = Vec::new();
                    first.push(i);
                    assert(first@ =~= seq![i]);
                    names.push(name);
                    members.push(first);
                    assert(groups_view(names@, members@) =~= g.push((k@, seq![i])));
                } else {
                    let mut m = copy_indices(&members[p]);
                    m.push(i);
                    members.set(p, m);
                    assert(groups_view(names@, members@) =~= g.update(
                        p as int,
                        (k@, g[p as int].1.push(i)),
                    ));
                }
            },
            None => {},
        }
        i += 1;
    }
    assert(kv.take(keys.len() as int) =~= kv);
    (names, members)
}

proof fn lemma_group_members(keys: Seq<Option<Seq<char>>>)
    requires
        keys.len() <= usize::MAX,
    ensures
        forall|j: int, m: int|
            0 <= j < group_by_key(keys).len() && 0 <= m < group_by_key(keys)[j].1.len() ==> {
                let x = #[trigger] group_by_key(keys)[j].1[m];
                x < keys.len() && keys[x as int] == Some(group_by_key(keys)[j].0)
            },
    decreases keys.len(),
{
    if keys.len() > 0 {
        let prev = keys.drop_last();
        lemma_group_members(prev);
        let g = group_by_key(prev);
        let n = (keys.len() - 1) as usize;
        assert forall|j: int, m: int|
            0 <= j < group_by_key(keys).len() && 0 <= m < group_by_key(keys)[j].1.len() implies {
                let x = #[trigger] group_by_key(keys)[j].1[m];
                x < keys.len() && keys[x as int] == Some(group_by_key(keys)[j].0)
            } by {
            match keys.last() {
                Some(k) => {
                    let p = key_pos(g, k);
                    lemma_key_pos_found(g, k);
                    if p < 0 {
                        if j < g.len() {
                            assert(group_by_key(keys)[j] == g[j]);
                            let x = g[j].1[m];
                            assert(prev[x as int] == keys[x as int]);
                        }
                    } else if j == p {
                        if m < g[j].1.len() {
                            let x = g[j].1[m];
                            assert(group_by_key(keys)[j].1[m] == x);
                            assert(prev[x as int] == keys[x as int]);
                        }
                    } else {
                        assert(group_by_key(keys)[j] == g[j]);
                        let x = g[j].1[m];
                        assert(prev[x as int] == keys[x as int]);
                    }
                },
                None => {
                    let x = g[j].1[m];
                    assert(prev[x as int] == keys[x as int]);
                },
            }
        }
    }
}

proof fn lemma_key_pos_found(groups: Seq<(Seq<char>, Seq<usize>)>, key: Seq<char>)
    ensures
        -1 <= key_pos(groups, key) < groups.len(),
        key_pos(groups, key) >= 0 ==> groups[key_pos(groups, key)].0 == key,
    decreases groups.len(),
{
    if groups.len() > 0 && groups[0].0 != key {
        lemma_key_pos_found(groups.drop_first(), key);
    }
}

/// Whether the flags `taken` record exactly the set `s`.
pub open spec fn records(taken: Seq<bool>, s: Set<usize>) -> bool {
    &&& forall|x: usize| x < taken.len() ==> (taken[x as int] <==> #[trigger] s.contains(x))
    &&& forall|x: usize| #[trigger] s.contains(x) ==> x < taken.len()
}

/// Takes the groups from `lists` in turn (see `pick_groups`), appending them
/// to `out` and marking their members in `taken`.
fn pick_into(
    lists: &Vec<Vec<usize>>,
    taken: &mut Vec<bool>,
    out: &mut Vec<Vec<usize>>,
    Ghost(names): Ghost<Seq<Seq<char>>>,
    Ghost(seen): Ghost<Set<usize>>,
) -> (done: Ghost<Set<usize>>)
    requires
        names.len() == lists.len(),
        records(old(taken)@, seen),
        forall|j: int, m: int|
            0 <= j < lists.len() && 0 <= m < lists@[j]@.len() ==> #[trigger] lists@[j]@[m]
                < old(taken)@.len(),
    ensures
        final(taken)@.len() == old(taken)@.len(),
        done@ == pick_groups(groups_view_of(names, lists@), seen).1,
        records(final(taken)@, done@),
        final(out)@.map_values(|g: Vec<usize>| g@) == old(out)@.map_values(|g: Vec<usize>| g@)
            + pick_groups(groups_view_of(names, lists@), seen).0,
{
    let ghost gv = groups_view_of(names, lists@);
    let ghost start = out@.map_values(|g: Vec<usize>| g@);
    let ghost mut s = seen;
    let mut j: usize = 0;
    while j < lists.len()
        invariant
            j <= lists.len(),
            names.len() == lists.len(),
            gv == groups_view_of(names, lists@),
            taken@.len() == old(taken)@.len(),
            forall|j: int, m: int|
                0 <= j < lists.len() && 0 <= m < lists@[j]@.len() ==> #[trigger] lists@[j]@[m]
                    < taken@.len(),
            records(taken@, s),
            (out@.map_values(|g: Vec<usize>| g@).skip(start.len() as int), s) == pick_groups(
                gv.take(j as int),
                seen,
            ),
            out@.map_values(|g: Vec<usize>| g@).take(start.len() as int) == start,
            out@.len() >= start.len(),
        decreases lists.len() - j,
    {
        let list = &lists[j];
        let mut f: Vec<usize> = Vec::new();
        let mut m: usize = 0;
        while m < list.len()
            invariant
                m <= list.len(),
                j < lists.len(),
                *list == lists@[j as int],
                forall|k: int| 0 <= k < f@.len() ==> #[trigger] f@[k] < taken@.len(),
                forall|q: int| 0 <= q < list@.len() ==> #[trigger] list@[q] < taken@.len(),
                records(taken@, s),
                f@ == unseen(list@.take(m as int), s),
            decreases list.len() - m,
        {
            let x = list[m];
            proof {
                assert(list@.take(m + 1).drop_last() =~= list@.take(m as int));
                assert(list@.take(m + 1).last() == x);
            }
            if !taken[x] {
                f.push(x);
            }
            m += 1;
        }
        proof {
            assert(list@.take(list.len() as int) =~= list@);
            assert(gv.take(j + 1).drop_last() =~= gv.take(j as int));
            assert(gv.take(j + 1).last().1 == list@);
        }
        let ghost before = out@.map_values(|g: Vec<usize>| g@);
        if f.len() > 1 {
            let mut q: usize = 0;
            while q < f.len()
                invariant
                    q <= f.len(),
                    taken@.len() == old(taken)@.len(),
                    forall|y: usize|
                        y < taken@.len() ==> (#[trigger] taken@[y as int] <==> (s.contains(y)
                            || exists|k: int| 0 <= k < q && f@[k] == y)),
                    forall|k: int| 0 <= k < f.len() ==> #[trigger] f@[k] < taken@.len(),
                decreases f.len() - q,
            {
                let ghost prev = taken@;
                taken.set(f[q], true);
                assert forall|y: usize| y < taken@.len() implies (#[trigger] taken@[y as int] <==> (
                s.contains(y) || exists|k: int| 0 <= k < q + 1 && f@[k] == y)) by {
                    if y == f@[q as int] {
                        assert(f@[q as int] == y);
                    } else {
                        assert(taken@[y as int] == prev[y as int]);
                        if exists|k: int| 0 <= k < q + 1 && f@[k] == y {
                            let k = choose|k: int| 0 <= k < q + 1 && f@[k] == y;
                            assert(k < q);
                        }
                    }
                }
                q += 1;
            }
            proof {
                s = s.union(f@.to_set());
            }
            out.push(f);
        }
        j += 1;
    }
    proof {
        let outv = out@.map_values(|g: Vec<usize>| g@);
        assert(gv.take(lists.len() as int) =~= gv);
        assert(outv =~= outv.take(start.len() as int) + outv.skip(start.len() as int));
    }
    Ghost(s)
}

fn key_chars(info: &Option<Bookmark>, by_url: bool) -> (r: Option<Vec<char>>)
    ensures
        match r {
            Some(v) => Some(v@),
            None => None,
        } == match info {
            Some(b) => if by_url {
                url_key(b@)
            } else {
                title_key(b@)
            },
            None => None,
        },
{
    match info {
        Some(b) => {
            let k = if by_url {
                chars_of(canonicalize_url(b.url.as_str()).as_str())
            } else {
                lowercase_vec(&trim_vec(&chars_of(b.title.as_str())))
            };
            if k.len() > 0 {
                Some(k)
            } else {
                None
            }
        },
        None => None,
    }
}

fn keys_exec(infos: &Vec<Option<Bookmark>>, by_url: bool) -> (r: Vec<Option<Vec<char>>>)
    ensures
        r@.map_values(|k: Option<Vec<char>>| match k {
            Some(v) => Some(v@),
            None => None,
        }) == keys_of(infos_view(infos@), by_url),
{
    let mut out: Vec<Option<Vec<char>>> = Vec::new();
    let mut i: usize = 0;
    while i < infos.len()
        invariant
            i <= infos.len(),
            out.len() == i,
            forall|k: int|
                0 <= k < i ==> match #[trigger] out@[k] {
                    Some(v) => Some(v@),
                    None => None,
                } == keys_of(infos_view(infos@), by_url)[k],
        decreases infos.len() - i,
    {
        out.push(key_chars(&infos[i], by_url));
        i += 1;
    }
    assert(out@.map_values(|k: Option<Vec<char>>| match k {
        Some(v) => Some(v@),
        None => None,
    }) =~= keys_of(infos_view(infos@), by_url));
    out
}

/// The duplicate groups among directories whose metadata reads gave
/// `infos` (`None` where it could not be read), as positions in `infos`
/// (see `duplicate_groups_spec`).
pub fn find_duplicate_groups(infos: &Vec<Option<Bookmark>>) -> (r: Vec<Vec<usize>>)
    ensures
        r@.map_values(|g: Vec<usize>| g@) == duplicate_groups_spec(infos_view(infos@)),
{
    let ghost iv = infos_view(infos@);
    let mut taken: Vec<bool> = Vec::new();
    let mut i: usize = 0;
    while i < infos.len()
        invariant
            i <= infos.len(),
            taken.len() == i,
            forall|k: int| 0 <= k < i ==> !(#[trigger] taken@[k]),
        decreases infos.len() - i,
    {
        taken.push(false);
        i += 1;
    }
    let mut out: Vec<Vec<usize>> = Vec::new();
    assert(out@.map_values(|g: Vec<usize>| g@) =~= Seq::<Seq<usize>>::empty());

    let url_keys = keys_exec(infos, true);
    let (url_names, url_members) = group_positions(&url_keys);
    let ghost un = url_names@.map_values(|v: Vec<char>| v@);
    proof {
        lemma_group_members(keys_of(iv, true));
        assert(groups_view_of(un, url_members@) =~= groups_view(url_names@, url_members@));
        assert forall|j: int, m: int|
            0 <= j < url_members.len() && 0 <= m < url_members@[j]@.len() implies #[trigger] url_members@[j]@[m]
                < taken@.len() by {
            assert(group_by_key(keys_of(iv, true))[j].1[m] == url_members@[j]@[m]);
        }
    }
    let taken_after_url = pick_into(&url_members, &mut taken, &mut out, Ghost(un), Ghost(Set::empty()));

    let title_keys = keys_exec(infos, false);
    let (title_names, title_members) = group_positions(&title_keys);
    let ghost tn = title_names@.map_values(|v: Vec<char>| v@);
    proof {
        lemma_group_members(keys_of(iv, false));
        assert(groups_view_of(tn, title_members@) =~= groups_view(title_names@, title_members@));
        assert forall|j: int, m: int|
            0 <= j < title_members.len() && 0 <= m < title_members@[j]@.len() implies #[trigger] title_members@[j]@[m]
                < taken@.len() by {
            assert(group_by_key(keys_of(iv, false))[j].1[m] == title_members@[j]@[m]);
        }
    }
    let _ = pick_into(&title_members, &mut taken, &mut out, Ghost(tn), taken_after_url);
    out
}

/// Whether each group of `g` lies within one of the lists.
pub open spec fn all_within(g: Seq<Seq<usize>>, lists: Seq<(Seq<char>, Seq<usize>)>) -> bool {
    forall|a: int| 0 <= a < g.len() ==> #[trigger] in_some_list(g[a], lists)
}

/// Whether the group lies within one of the lists.
pub open spec fn in_some_list(grp: Seq<usize>, lists: Seq<(Seq<char>, Seq<usize>)>) -> bool {
    exists|j: int| 0 <= j < lists.len() && #[trigger] within(grp, lists[j].1)
}

/// Whether the members of each group share one URL key or one title key.
pub open spec fn all_keyed(gs: Seq<Seq<usize>>, uk: Seq<Option<Seq<char>>>, tk: Seq<Option<Seq<char>>>) -> bool {
    forall|a: int| 0 <= a < gs.len() ==> #[trigger] shares_key(gs[a], uk, tk)
}

/// Whether the members of the group share one URL key or one title key.
pub open spec fn shares_key(grp: Seq<usize>, uk: Seq<Option<Seq<char>>>, tk: Seq<Option<Seq<char>>>) -> bool {
    exists|key: Seq<char>|
        #![trigger keyed(grp, uk, key)]
        #![trigger keyed(grp, tk, key)]
        keyed(grp, uk, key) || keyed(grp, tk, key)
}

/// Whether every member of `g` is in `list`.
pub open spec fn within(g: Seq<usize>, list: Seq<usize>) -> bool {
    forall|m: int| 0 <= m < g.len() ==> list.contains(#[trigger] g[m])
}

/// Whether every member of `g` is a position whose key is `key`.
pub open spec fn keyed(g: Seq<usize>, keys: Seq<Option<Seq<char>>>, key: Seq<char>) -> bool {
    forall|m: int| 0 <= m < g.len() ==> #[trigger] g[m] < keys.len() && keys[g[m] as int] == Some(key)
}

proof fn lemma_unseen(list: Seq<usize>, seen: Set<usize>)
    ensures
        forall|k: int|
            0 <= k < unseen(list, seen).len() ==> list.contains(#[trigger] unseen(list, seen)[k])
                && !seen.contains(unseen(list, seen)[k]),
    decreases list.len(),
{
    if list.len() > 0 {
        let prev = list.drop_last();
        lemma_unseen(prev, seen);
        let r = unseen(prev, seen);
        assert forall|k: int| 0 <= k < unseen(list, seen).len() implies list.contains(
            #[trigger] unseen(list, seen)[k],
        ) && !seen.contains(unseen(list, seen)[k]) by {
            if k < r.len() {
                let x = r[k];
                assert(prev.contains(x));
                let w = choose|w: int| 0 <= w < prev.len() && prev[w] == x;
                assert(list[w] == x);
            } else {
                assert(list[list.len() - 1] == list.last());
            }
        }
    }
}

proof fn lemma_pick(lists: Seq<(Seq<char>, Seq<usize>)>, seen: Set<usize>)
    ensures
        ({
            let (g, t) = pick_groups(lists, seen);
            &&& forall|x: usize| seen.contains(x) ==> #[trigger] t.contains(x)
            &&& forall|a: int| 0 <= a < g.len() ==> #[trigger] g[a].len() >= 2
            &&& forall|a: int, m: int|
                0 <= a < g.len() && 0 <= m < g[a].len() ==> t.contains(#[trigger] g[a][m])
                    && !seen.contains(g[a][m])
            &&& forall|a: int, b: int, m: int, k: int|
                0 <= a < b < g.len() && 0 <= m < g[a].len() && 0 <= k < g[b].len() ==> #[trigger] g[a][m]
                    != #[trigger] g[b][k]
            &&& all_within(g, lists)
        }),
    decreases lists.len(),
{
    if lists.len() > 0 {
        let prev = lists.drop_last();
        lemma_pick(prev, seen);
        let (g0, t0) = pick_groups(prev, seen);
        let f = unseen(lists.last().1, t0);
        lemma_unseen(lists.last().1, t0);
        let (g, t) = pick_groups(lists, seen);
        assert forall|a: int| 0 <= a < g.len() implies #[trigger] in_some_list(g[a], lists) by {
            if a < g0.len() {
                assert(in_some_list(g0[a], prev));
                let j = choose|j: int| 0 <= j < prev.len() && #[trigger] within(g0[a], prev[j].1);
                assert(lists[j] == prev[j]);
                assert(g[a] == g0[a]);
                assert(within(g[a], lists[j].1));
            } else {
                let j = lists.len() - 1;
                assert(lists[j] == lists.last());
                assert(g[a] == f);
                assert(within(g[a], lists[j].1));
            }
        }
        assert(all_within(g, lists));
        if f.len() > 1 {
            assert forall|a: int, m: int|
                0 <= a < g.len() && 0 <= m < g[a].len() implies t.contains(#[trigger] g[a][m])
                    && !seen.contains(g[a][m]) by {
                if a < g0.len() {
                    assert(g[a] == g0[a]);
                } else {
                    assert(g[a] == f);
                }
            }
            assert forall|a: int, b: int, m: int, k: int|
                0 <= a < b < g.len() && 0 <= m < g[a].len() && 0 <= k < g[b].len() implies #[trigger] g[a][m]
                    != #[trigger] g[b][k] by {
                assert(g[a] == g0[a]);
                if b < g0.len() {
                    assert(g[b] == g0[b]);
                } else {
                    assert(g[b] == f);
                    assert(t0.contains(g0[a][m]));
                }
            }
        }
    }
}

/// Each duplicate group holds at least two directories, no directory is in
/// two groups, and the directories of a group all share one canonical URL
/// or all share one title.
pub proof fn law_duplicate_groups(infos: Seq<Option<BookmarkView>>)
    requires
        infos.len() <= usize::MAX,
    ensures
        ({
            let gs = duplicate_groups_spec(infos);
            let uk = keys_of(infos, true);
            let tk = keys_of(infos, false);
            &&& forall|a: int| 0 <= a < gs.len() ==> #[trigger] gs[a].len() >= 2
            &&& forall|a: int, b: int, m: int, k: int|
                0 <= a < b < gs.len() && 0 <= m < gs[a].len() && 0 <= k < gs[b].len() ==> #[trigger] gs[a][m]
                    != #[trigger] gs[b][k]
            &&& all_keyed(gs, uk, tk)
        }),
{
    let uk = keys_of(infos, true);
    let tk = keys_of(infos, false);
    let ul = group_by_key(uk);
    let tl = group_by_key(tk);
    let (g1, s1) = pick_groups(ul, Set::empty());
    let (g2, s2) = pick_groups(tl, s1);
    lemma_pick(ul, Set::empty());
    lemma_pick(tl, s1);
    lemma_group_members(uk);
    lemma_group_members(tk);
    let gs = duplicate_groups_spec(infos);
    assert(gs == g1 + g2);
    assert forall|a: int| 0 <= a < gs.len() implies #[trigger] gs[a].len() >= 2 by {
        if a < g1.len() {
            assert(gs[a] == g1[a]);
        } else {
            assert(gs[a] == g2[a - g1.len()]);
        }
    }
    assert forall|a: int, b: int, m: int, k: int|
        0 <= a < b < gs.len() && 0 <= m < gs[a].len() && 0 <= k < gs[b].len() implies #[trigger] gs[a][m]
            != #[trigger] gs[b][k] by {
        if b < g1.len() {
            assert(gs[a] == g1[a]);
            assert(gs[b] == g1[b]);
        } else if a >= g1.len() {
            assert(gs[a] == g2[a - g1.len()]);
            assert(gs[b] == g2[b - g1.len()]);
        } else {
            assert(gs[a] == g1[a]);
            assert(gs[b] == g2[b - g1.len()]);
            assert(s1.contains(g1[a][m]));
            assert(!s1.contains(g2[b - g1.len()][k]));
        }
    }
    assert forall|a: int| 0 <= a < gs.len() implies #[trigger] shares_key(gs[a], uk, tk) by {
        if a < g1.len() {
            assert(gs[a] == g1[a]);
            assert(in_some_list(g1[a], ul));
            let j = choose|j: int| 0 <= j < ul.len() && #[trigger] within(g1[a], ul[j].1);
            let key = ul[j].0;
            assert forall|m: int| 0 <= m < gs[a].len() implies #[trigger] gs[a][m] < uk.len()
                && uk[gs[a][m] as int] == Some(key) by {
                assert(ul[j].1.contains(g1[a][m]));
                let w = choose|w: int| 0 <= w < ul[j].1.len() && ul[j].1[w] == g1[a][m];
                assert(ul[j].1[w] == g1[a][m]);
            }
            assert(keyed(gs[a], uk, key));
        } else {
            let a2 = a - g1.len();
            assert(gs[a] == g2[a2]);
            assert(in_some_list(g2[a2], tl));
            let j = choose|j: int| 0 <= j < tl.len() && #[trigger] within(g2[a2], tl[j].1);
            let key = tl[j].0;
            assert forall|m: int| 0 <= m < gs[a].len() implies #[trigger] gs[a][m] < tk.len()
                && tk[gs[a][m] as int] == Some(key) by {
                assert(tl[j].1.contains(g2[a2][m]));
                let w = choose|w: int| 0 <= w < tl[j].1.len() && tl[j].1[w] == g2[a2][m];
                assert(tl[j].1[w] == g2[a2][m]);
            }
            assert(keyed(gs[a], tk, key));
        }
    }
}

// ---------------------------------------------------------------------------
// Messages
// ---------------------------------------------------------------------------

/// What cancelling deduplication reports.
pub open spec fn cancel_message_spec(removed: nat) -> Seq<char> {
    if removed > 0 {
        "Dedup: removed "@ + decimal(removed)
    } else {
        "Dedup cancelled"@
    }
}

/// The positions of a group's entries that go to the trash when the one at
/// `keep` is kept: every other position below `n`, in order.
pub open spec fn others_than(n: nat, keep: int) -> Seq<usize>
    decreases n,
{
    if n == 0 {
        seq![]
    } else {
        let rest = others_than((n - 1) as nat, keep);
        if n - 1 == keep {
            rest
        } else {
            rest.push((n - 1) as usize)
        }
    }
}

/// The positions of a group's `n` entries that go to the trash when the
/// entry at `keep` is kept.
pub fn entries_to_trash(n: usize, keep: usize) -> (r: Vec<usize>)
    ensures
        r@ == others_than(n as nat, keep as int),
{
    let mut out: Vec<usize> = Vec::new();
    let mut i: usize = 0;
    while i < n
        invariant
            i <= n,
            out@ == others_than(i as nat, keep as int),
        decreases n - i,
    {
        if i != keep {
            out.push(i);
        }
        i += 1;
    }
    out
}

/// What finishing deduplication reports.
pub open spec fn done_message_spec(removed: nat) -> Seq<char> {
    if removed > 0 {
        "Dedup: removed "@ + decimal(removed) + " (run reindex)"@
    } else {
        "Dedup: no changes"@
    }
}

pub fn cancel_message(removed: usize) -> (r: String)
    ensures
        r@ == cancel_message_spec(removed as nat),
{
    if removed > 0 {
        string_of(&concat_vec(&lit("Dedup: removed "), &decimal_vec(removed as u128)))
    } else {
        "Dedup cancelled".to_string()
    }
}

pub fn done_message(removed: usize) -> (r: String)
    ensures
        r@ == done_message_spec(removed as nat),
{
    if removed > 0 {
        let head = concat_vec(&lit("Dedup: removed "), &decimal_vec(removed as u128));
        string_of(&concat_vec(&head, &lit(" (run reindex)")))
    } else {
        "Dedup: no changes".to_string()
    }
}

} // verus!
