use vstd::prelude::*;

use crate::model::Bookmark;
use crate::config::{components, components_vec, eq_vecs, named_parts};
use crate::paths::{
    copy_vec, file_name, file_name_vec, is_named_part, last_named, path_join, path_join_vec,
};
use crate::text::{
    append_vec, chars_of, decimal, eq_str, eq_vec, find, find_from, lemma_find, lit, push_decimal,
    slice_vec, starts_with, starts_with_vec, string_of, trim, trim_vec,
};
use crate::text_split::{split, split_vec};
use crate::urls::{canonical_key, canonical_key_spec, parse_url, url_parse};

verus! {

// ---------------------------------------------------------------------------
// Directory names
// ---------------------------------------------------------------------------

/// What `slug::slugify` returns for a text.
pub uninterp spec fn slugify_spec(s: Seq<char>) -> Seq<char>;

/// Whether `c` may occur in a slug: `a`-`z`, `0`-`9` or `-`.
pub open spec fn is_slug_char(c: char) -> bool {
    ('a' <= c && c <= 'z') || ('0' <= c && c <= '9') || c == '-'
}

/// Whether a text has no `-` at its start or end and never two in a row.
pub open spec fn dashes_single(s: Seq<char>) -> bool {
    &&& (s.len() > 0 ==> s[0] != '-' && s[s.len() - 1] != '-')
    &&& forall|i: int| 0 <= i < s.len() - 1 ==> !(#[trigger] s[i] == '-' && s[i + 1] == '-')
}

/// Calls `slug::slugify`. Its documentation promises a result made of
/// `a`-`z`, `0`-`9` and `-` only, with never more than one `-` in a row and
/// no `-` at the start or end; which slug a text gets (through its
/// transliteration of non-ASCII characters) is named, not written out.
#[verifier::external_body]
fn slugify(s: &str) -> (r: String)
    ensures
        r@ == slugify_spec(s@),
        forall|i: int| 0 <= i < r@.len() ==> is_slug_char(#[trigger] r@[i]),
        dashes_single(r@),
{
    slug::slugify(s)
}

/// `s` with every leading `www.` removed (`trim_start_matches("www.")`).
pub open spec fn trim_www(s: Seq<char>) -> Seq<char>
    decreases s.len(),
{
    if s.len() >= 4 && starts_with(s, "www."@) {
        trim_www(s.skip(4))
    } else {
        s
    }
}

/// The part of a site name used in directory names: trimmed, without leading
/// `www.`, and up to its first dot.
pub open spec fn strip_site_spec(site: Seq<char>) -> Seq<char> {
    let s = trim_www(trim(site));
    match find(s, seq!['.']) {
        Some(k) => s.take(k),
        None => s,
    }
}

pub fn strip_site(site: &str) -> (r: String)
    ensures
        r@ == strip_site_spec(site@),
{
    let mut s = trim_vec(&chars_of(site));
    let www = lit("www.");
    proof {
        reveal_strlit("www.");
    }
    while s.len() >= 4 && starts_with_vec(&s, &www)
        invariant
            www@ == "www."@,
            trim_www(trim(site@)) == trim_www(s@),
        decreases s.len(),
    {
        s = slice_vec(&s, 4, s.len());
    }
    let mut dot: Vec<char> = Vec::new();
    dot.push('.');
    assert(dot@ =~= seq!['.']);
    assert(s@.skip(0) =~= s@);
    proof {
        lemma_find(s@, seq!['.']);
    }
    match find_from(&s, &dot, 0) {
        Some(k) => string_of(&slice_vec(&s, 0, k)),
        None => string_of(&s),
    }
}

/// The last non-empty `/`-separated segment of a URL path that starts with
/// `/`, as `Url::path_segments` with `rfind` gives it.
pub open spec fn last_path_segment(path: Seq<char>) -> Option<Seq<char>> {
    if path.len() > 0 && path[0] == '/' {
        let segs = split(path.skip(1), seq!['/']);
        match last_nonempty(segs, segs.len() as int) {
            Some(i) => Some(segs[i]),
            None => None,
        }
    } else {
        None
    }
}

pub open spec fn last_nonempty(segs: Seq<Seq<char>>, end: int) -> Option<int>
    decreases end,
{
    if end <= 0 {
        None
    } else if segs[end - 1].len() > 0 {
        Some(end - 1)
    } else {
        last_nonempty(segs, end - 1)
    }
}

fn last_path_segment_exec(path: &Vec<char>) -> (r: Option<Vec<char>>)
    ensures
        r matches Some(v) ==> last_path_segment(path@) == Some(v@),
        r is None ==> last_path_segment(path@) is None,
{
    if path.len() == 0 || path[0] != '/' {
        return None;
    }
    let rest = slice_vec(path, 1, path.len());
    assert(rest@ =~= path@.skip(1));
    let mut sep: Vec<char> = Vec::new();
    sep.push('/');
    assert(sep@ =~= seq!['/']);
    let segs = split_vec(&rest, &sep);
    let ghost sv = segs@.map_values(|v: Vec<char>| v@);
    let mut end = segs.len();
    while end > 0 && segs[end - 1].len() == 0
        invariant
            end <= segs.len(),
            sv == segs@.map_values(|v: Vec<char>| v@),
            last_nonempty(sv, segs.len() as int) == last_nonempty(sv, end as int),
        decreases end,
    {
        end -= 1;
    }
    if end == 0 {
        None
    } else {
        Some(copy_vec(&segs[end - 1]))
    }
}

/// The text a bookmark's directory name is made from when its title is
/// still its URL: the last path segment, or `home`.
pub open spec fn placeholder_title_source(url: Seq<char>) -> Seq<char> {
    match url_parse(url) {
        Some(u) => match last_path_segment(u.path) {
            Some(seg) => seg,
            None => "home"@,
        },
        None => "home"@,
    }
}

/// The directory name for a bookmark: `{site}-{title}` slugified, where
/// `site` comes from `strip_site` (or is `site`), and `title` is the slug of
/// the title (of the URL's last path segment while the title is the URL),
/// cut to 48 characters, or `untitled`.
pub open spec fn dir_name_spec(b: crate::model::BookmarkView) -> Seq<char> {
    let site = match b.site {
        Some(s) => strip_site_spec(s),
        None => "site"@,
    };
    let source = if b.title == b.url {
        placeholder_title_source(b.url)
    } else {
        b.title
    };
    let t = slugify_spec(source);
    let title = if t.len() == 0 {
        "untitled"@
    } else if t.len() <= 48 {
        t
    } else {
        t.take(48)
    };
    slugify_spec(site + seq!['-'] + title)
}

pub fn make_dir_name(bookmark: &Bookmark) -> (r: String)
    ensures
        r@ == dir_name_spec(bookmark@),
{
    let ghost b = bookmark@;
    let site = match &bookmark.site {
        Some(s) => chars_of(strip_site(s.as_str()).as_str()),
        None => lit("site"),
    };
    assert(site@ == match b.site {
        Some(s) => strip_site_spec(s),
        None => "site"@,
    });
    let source = if bookmark.title == bookmark.url {
        let parsed = parse_url(bookmark.url.as_str());
        match parsed {
            Some(u) => {
                assert(url_parse(b.url) == Some(u@));
                match last_path_segment_exec(&chars_of(u.path.as_str())) {
                    Some(seg) => seg,
                    None => lit("home"),
                }
            },
            None => lit("home"),
        }
    } else {
        chars_of(bookmark.title.as_str())
    };
    assert(source@ == if b.title == b.url {
        placeholder_title_source(b.url)
    } else {
        b.title
    });
    let t = chars_of(slugify(string_of(&source).as_str()).as_str());
    // A slug is ASCII, so cutting it at 48 bytes (as `str::get` does) and at
    // 48 characters agree.
    let title = if t.len() == 0 {
        lit("untitled")
    } else if t.len() <= 48 {
        t
    } else {
        let cut = slice_vec(&t, 0, 48);
        assert(cut@ =~= t@.take(48));
        cut
    };
    let ghost tt = slugify_spec(source@);
    assert(t@ == tt);
    assert(title@ == if tt.len() == 0 {
        "untitled"@
    } else if tt.len() <= 48 {
        tt
    } else {
        tt.take(48)
    });
    let mut joined = site;
    joined.push('-');
    append_vec(&mut joined, &title);
    assert(joined@ =~= site@ + seq!['-'] + title@);
    slugify(string_of(&joined).as_str())
}

/// The `k`-th name tried for a new directory: `name` itself first, then
/// `name-2`, `name-3`, ...
pub open spec fn candidate_name(name: Seq<char>, k: nat) -> Seq<char> {
    if k < 2 {
        name
    } else {
        name + seq!['-'] + decimal(k)
    }
}

/// The first candidate name that is not taken.
pub open spec fn is_first_free(name: Seq<char>, taken: Seq<Seq<char>>, r: Seq<char>) -> bool {
    exists|k: nat|
        #![trigger candidate_name(name, k)]
        1 <= k && r == candidate_name(name, k) && !taken.contains(r) && forall|j: nat|
            1 <= j < k ==> taken.contains(#[trigger] candidate_name(name, j))
}

proof fn lemma_decimal_len(n: nat)
    ensures
        decimal(n).len() >= 1,
        n >= 10 ==> decimal(n).len() >= 2,
    decreases n,
{
    if n >= 10 {
        lemma_decimal_len(n / 10);
    }
}

proof fn lemma_digit_injective(a: nat, b: nat)
    requires
        a < 10,
        b < 10,
        crate::text::digit_char(a) == crate::text::digit_char(b),
    ensures
        a == b,
{
}

pub proof fn lemma_decimal_injective(a: nat, b: nat)
    requires
        decimal(a) == decimal(b),
    ensures
        a == b,
    decreases a,
{
    lemma_decimal_len(a);
    lemma_decimal_len(b);
    if a < 10 && b < 10 {
        assert(decimal(a)[0] == crate::text::digit_char(a));
        assert(decimal(b)[0] == crate::text::digit_char(b));
        lemma_digit_injective(a, b);
    } else if a >= 10 && b >= 10 {
        assert(decimal(a).last() == crate::text::digit_char(a % 10));
        assert(decimal(b).last() == crate::text::digit_char(b % 10));
        lemma_digit_injective(a % 10, b % 10);
        assert(decimal(a).drop_last() =~= decimal(a / 10));
        assert(decimal(b).drop_last() =~= decimal(b / 10));
        lemma_decimal_injective(a / 10, b / 10);
    }
}

proof fn lemma_candidate_injective(name: Seq<char>, j: nat, k: nat)
    requires
        1 <= j,
        1 <= k,
        candidate_name(name, j) == candidate_name(name, k),
    ensures
        j == k,
{
    lemma_decimal_len(j);
    lemma_decimal_len(k);
    if j >= 2 && k >= 2 {
        assert(candidate_name(name, j).skip(name.len() as int + 1) =~= decimal(j));
        assert(candidate_name(name, k).skip(name.len() as int + 1) =~= decimal(k));
        lemma_decimal_injective(j, k);
    } else if j >= 2 || k >= 2 {
        assert(candidate_name(name, j).len() != candidate_name(name, k).len());
    }
}

/// `m` names cannot hold `m + 1` distinct candidates.
proof fn lemma_not_all_taken(name: Seq<char>, taken: Seq<Seq<char>>)
    ensures
        exists|j: nat|
            1 <= j <= taken.len() + 1 && !taken.contains(#[trigger] candidate_name(name, j)),
{
    if forall|j: nat| 1 <= j <= taken.len() + 1 ==> taken.contains(#[trigger] candidate_name(name, j)) {
        lemma_all_taken_impossible(name, taken);
    }
}

proof fn lemma_all_taken_impossible(name: Seq<char>, taken: Seq<Seq<char>>)
    requires
        forall|j: nat| 1 <= j <= taken.len() + 1 ==> taken.contains(#[trigger] candidate_name(name, j)),
    ensures
        taken.len() + 1 <= taken.len(),
{
    let m = taken.len();
    let cands = Seq::new(m + 1, |i: int| candidate_name(name, (i + 1) as nat));
    assert(cands.no_duplicates()) by {
        assert forall|a: int, b: int| 0 <= a < cands.len() && 0 <= b < cands.len() && a != b implies cands[a] != cands[b] by {
            if cands[a] == cands[b] {
                lemma_candidate_injective(name, (a + 1) as nat, (b + 1) as nat);
            }
        }
    }
    cands.unique_seq_to_set();
    taken.lemma_cardinality_of_set();
    assert(cands.to_set().subset_of(taken.to_set())) by {
        assert forall|x: Seq<char>| cands.to_set().contains(x) implies taken.to_set().contains(x) by {
            let i = choose|i: int| 0 <= i < cands.len() && cands[i] == x;
            assert(taken.contains(candidate_name(name, (i + 1) as nat)));
        }
    }
    vstd::set_lib::lemma_len_subset(cands.to_set(), taken.to_set());
}

fn contains_name(taken: &Vec<String>, c: &Vec<char>) -> (r: bool)
    ensures
        r == crate::model::strs_view(*taken).contains(c@),
{
    let ghost tv = crate::model::strs_view(*taken);
    let mut i: usize = 0;
    while i < taken.len()
        invariant
            i <= taken.len(),
            tv == crate::model::strs_view(*taken),
            forall|j: int| 0 <= j < i ==> tv[j] != c@,
        decreases taken.len() - i,
    {
        if eq_vec(&chars_of(taken[i].as_str()), c) {
            assert(tv[i as int] == c@);
            return true;
        }
        i += 1;
    }
    false
}

/// The first of `name`, `name-2`, `name-3`, ... that is not among the names
/// already taken (the entries of the directory it will be created in).
pub fn available_name(name: &str, taken: &Vec<String>) -> (r: String)
    ensures
        is_first_free(name@, crate::model::strs_view(*taken), r@),
{
    let ghost tv = crate::model::strs_view(*taken);
    let base = chars_of(name);
    let m = taken.len() as u128;
    assert(tv.len() == m);
    let mut k: u128 = 1;
    loop
        invariant
            1 <= k <= m + 1,
            m == tv.len(),
            m <= usize::MAX,
            tv == crate::model::strs_view(*taken),
            base@ == name@,
            forall|j: nat| 1 <= j < k ==> tv.contains(#[trigger] candidate_name(name@, j)),
        decreases m + 1 - k,
    {
        let c = if k < 2 {
            copy_vec(&base)
        } else {
            let mut c = copy_vec(&base);
            c.push('-');
            push_decimal(&mut c, k);
            c
        };
        assert(c@ =~= candidate_name(name@, k as nat));
        if !contains_name(taken, &c) {
            return string_of(&c);
        }
        if k > m {
            proof {
                lemma_not_all_taken(name@, tv);
            }
            return string_of(&c);
        }
        k += 1;
    }
}

// ---------------------------------------------------------------------------
// Slugs given on the command line
// ---------------------------------------------------------------------------

/// Why a slug was refused.
#[derive(Debug, Clone, Copy, PartialEq, Eq)]
pub enum SlugError {
    /// The slug is not a single directory name.
    NotSingleName,
}

/// Whether `Path::new(s).components()` is exactly one normal component: `s`
/// is not empty, not absolute, does not start with `.` or `..` as a whole
/// component, and every later `/`-separated piece is empty or `.`.
pub open spec fn is_single_name(s: Seq<char>) -> bool {
    let parts = split(s, seq!['/']);
    &&& s.len() > 0
    &&& s[0] != '/'
    &&& parts[0] != "."@
    &&& parts[0] != ".."@
    &&& forall|i: int| 1 <= i < parts.len() ==> (#[trigger] parts[i]).len() == 0 || parts[i] == "."@
}

/// Checks that a slug names a single directory inside the library.
pub fn validate_slug(slug: &str) -> (r: Result<(), SlugError>)
    ensures
        r is Ok <==> is_single_name(slug@),
{
    let s = chars_of(slug);
    if s.len() == 0 || s[0] == '/' {
        return Err(SlugError::NotSingleName);
    }
    let mut sep: Vec<char> = Vec::new();
    sep.push('/');
    assert(sep@ =~= seq!['/']);
    let parts = split_vec(&s, &sep);
    let ghost pv = parts@.map_values(|v: Vec<char>| v@);
    proof {
        crate::text_split::lemma_split_nonempty(s@, seq!['/']);
    }
    assert(pv[0] == parts@[0]@);
    if eq_str(&parts[0], ".") || eq_str(&parts[0], "..") {
        return Err(SlugError::NotSingleName);
    }
    let mut i: usize = 1;
    while i < parts.len()
        invariant
            1 <= i <= parts.len(),
            pv == parts@.map_values(|v: Vec<char>| v@),
            pv == split(slug@, seq!['/']),
            s@ == slug@,
            s.len() > 0,
            s@[0] != '/',
            pv[0] != "."@,
            pv[0] != ".."@,
            forall|j: int| 1 <= j < i ==> (#[trigger] pv[j]).len() == 0 || pv[j] == "."@,
        decreases parts.len() - i,
    {
        assert(pv[i as int] == parts@[i as int]@);
        if !(parts[i].len() == 0 || eq_str(&parts[i], ".")) {
            return Err(SlugError::NotSingleName);
        }
        i += 1;
    }
    Ok(())
}

/// The directory of the bookmark with the given slug.
pub fn bookmark_dir(library: &str, slug: &str) -> (r: Result<String, SlugError>)
    ensures
        r is Ok <==> is_single_name(slug@),
        r matches Ok(d) ==> d@ == path_join(library@, slug@),
{
    validate_slug(slug)?;
    Ok(string_of(&path_join_vec(&chars_of(library), &chars_of(slug))))
}

// ---------------------------------------------------------------------------
// Moving to the trash
// ---------------------------------------------------------------------------

/// Why a directory cannot be moved to the library's trash.
#[derive(Debug, Clone, Copy, PartialEq, Eq)]
pub enum TrashError {
    /// The directory is not an immediate child of the library.
    NotInLibrary,
    /// The directory's path has no final name.
    NoName,
}

/// Whether `dir` is an immediate child of `library`: `dir.parent()` is
/// `library`, comparing paths by components.
pub open spec fn is_child(library: Seq<char>, dir: Seq<char>) -> bool {
    let c = components(dir);
    c.len() > 0 && c.last() != "/"@ && c.drop_last() == components(library)
}

/// The name under which `dir` goes to the trash: its final component, when
/// it is an immediate child of the library.
pub fn trash_name(library: &str, dir: &str) -> (r: Result<String, TrashError>)
    ensures
        !is_child(library@, dir@) ==> r == Err::<String, TrashError>(TrashError::NotInLibrary),
        is_child(library@, dir@) && file_name(dir@) is None ==> r == Err::<String, TrashError>(
            TrashError::NoName,
        ),
        is_child(library@, dir@) ==> (file_name(dir@) matches Some(n) ==> r matches Ok(s) && s@ == n),
{
    let dc = components_vec(&chars_of(dir));
    let lc = components_vec(&chars_of(library));
    let ghost dv = dc@.map_values(|v: Vec<char>| v@);
    if dc.len() == 0 || eq_str(&dc[dc.len() - 1], "/") {
        proof {
            if dc.len() > 0 {
                assert(dv.last() == dc@[dc.len() - 1]@);
            }
        }
        return Err(TrashError::NotInLibrary);
    }
    let mut parent: Vec<Vec<char>> = Vec::new();
    let mut i: usize = 0;
    while i + 1 < dc.len()
        invariant
            i < dc.len(),
            dv == dc@.map_values(|v: Vec<char>| v@),
            parent@.map_values(|v: Vec<char>| v@) == dv.take(i as int),
        decreases dc.len() - i,
    {
        let ghost before = parent@.map_values(|v: Vec<char>| v@);
        parent.push(copy_vec(&dc[i]));
        assert(parent@.map_values(|v: Vec<char>| v@) =~= before.push(dv[i as int]));
        i += 1;
        assert(dv.take(i as int) =~= dv.take(i - 1).push(dv[i - 1]));
    }
    assert(dv.take(i as int) =~= dv.drop_last());
    assert(dv.last() == dc@[dc.len() - 1]@);
    if !eq_vecs(&parent, &lc) {
        return Err(TrashError::NotInLibrary);
    }
    match file_name_vec(&chars_of(dir)) {
        Some(n) => Ok(string_of(&n)),
        None => Err(TrashError::NoName),
    }
}

proof fn lemma_named_parts_concat(x: Seq<Seq<char>>, y: Seq<Seq<char>>)
    ensures
        named_parts(x + y) == named_parts(x) + named_parts(y),
    decreases y.len(),
{
    if y.len() == 0 {
        assert(x + y =~= x);
        assert(named_parts(x) + named_parts(y) =~= named_parts(x));
    } else {
        lemma_named_parts_concat(x, y.drop_last());
        assert((x + y).drop_last() =~= x + y.drop_last());
        assert((x + y).last() == y.last());
        assert(named_parts(x) + named_parts(y) =~= named_parts(x) + named_parts(y.drop_last()) + (
        if is_named_part(y.last()) {
            seq![y.last()]
        } else {
            seq![]
        }));
    }
}

proof fn lemma_one_named(ps: Seq<Seq<char>>, m: int)
    requires
        1 <= m <= ps.len(),
        is_named_part(ps[0]),
        forall|j: int| 1 <= j < ps.len() ==> !is_named_part(#[trigger] ps[j]),
    ensures
        named_parts(ps.take(m)) == seq![ps[0]],
    decreases m,
{
    if m == 1 {
        assert(ps.take(1).drop_last() =~= Seq::<Seq<char>>::empty());
        assert(named_parts(Seq::<Seq<char>>::empty()) =~= Seq::<Seq<char>>::empty());
        assert(ps.take(1).last() == ps[0]);
        assert(named_parts(ps.take(1)) =~= Seq::<Seq<char>>::empty() + seq![ps[0]]);
    } else {
        lemma_one_named(ps, m - 1);
        assert(ps.take(m).drop_last() =~= ps.take(m - 1));
        assert(ps.take(m).last() == ps[m - 1]);
        assert(named_parts(ps.take(m)) =~= named_parts(ps.take(m - 1)));
    }
}

proof fn lemma_last_named_skip(parts: Seq<Seq<char>>, start: int, end: int)
    requires
        0 <= start < end <= parts.len(),
        is_named_part(parts[start]),
        forall|j: int| start < j < end ==> !is_named_part(#[trigger] parts[j]),
    ensures
        last_named(parts, end) == Some(start),
    decreases end,
{
    if end - 1 > start {
        lemma_last_named_skip(parts, start, end - 1);
    }
}

/// The pieces of a single-name slug: its name first, then only empty or
/// `.` pieces; the name holds no `/` and is neither `.` nor `..`.
proof fn lemma_single_name_pieces(slug: Seq<char>)
    requires
        is_single_name(slug),
    ensures
        ({
            let ps = split(slug, seq!['/']);
            &&& ps.len() >= 1
            &&& is_named_part(ps[0]) && ps[0] != ".."@ && ps[0] != "/"@
            &&& forall|j: int| 1 <= j < ps.len() ==> !is_named_part(#[trigger] ps[j])
            &&& named_parts(ps) == seq![ps[0]]
            &&& (forall|i: int| 0 <= i < slug.len() ==> slug[i] != '/') ==> ps[0] == slug
        }),
{
    let ps = split(slug, seq!['/']);
    crate::text_split::lemma_split_nonempty(slug, seq!['/']);
    crate::paths::lemma_split_pieces(slug, '/');
    crate::text::lemma_find(slug, seq!['/']);
    reveal_strlit("/");
    reveal_strlit(".");
    if let Some(k) = find(slug, seq!['/']) {
        assert(slug.subrange(k, k + 1)[0] == slug[k]);
        assert(k > 0);
        assert(ps[0] == slug.take(k));
        assert(ps[0].len() > 0);
        if ps[0] == "/"@ {
            assert(ps[0][0] == '/');
        }
        if forall|i: int| 0 <= i < slug.len() ==> slug[i] != '/' {
            assert(slug.subrange(k, k + 1) =~= seq!['/']);
            assert(slug[k] == '/');
        }
    } else {
        assert(ps[0] == slug);
        if ps[0] == "/"@ {
            assert(slug[0] == '/');
        }
    }
    assert forall|j: int| 1 <= j < ps.len() implies !is_named_part(#[trigger] ps[j]) by {
    }
    lemma_one_named(ps, ps.len() as int);
    assert(ps.take(ps.len() as int) =~= ps);
}

/// The directory that `bookmark_dir` names for a slug lies directly in the
/// library, so `trash_name` accepts it and moves it to the trash under the
/// slug's name (the slug itself when it holds no `/`).
pub proof fn law_trash_accepts_bookmark_dir(library: Seq<char>, slug: Seq<char>)
    requires
        is_single_name(slug),
    ensures
        is_child(library, path_join(library, slug)),
        file_name(path_join(library, slug)) == Some(split(slug, seq!['/'])[0]),
        (forall|i: int| 0 <= i < slug.len() ==> slug[i] != '/') ==> file_name(path_join(library, slug))
            == Some(slug),
{
    let sep = seq!['/'];
    let ps = split(slug, sep);
    lemma_single_name_pieces(slug);
    let join = path_join(library, slug);
    if library.len() == 0 {
        assert(join =~= slug);
        assert(split(library, sep) =~= seq![library]);
        assert(named_parts(seq![library]) =~= Seq::<Seq<char>>::empty()) by {
            assert(seq![library].drop_last() =~= Seq::<Seq<char>>::empty());
            assert(named_parts(Seq::<Seq<char>>::empty()) =~= Seq::<Seq<char>>::empty());
            assert(!is_named_part(library));
        }
        assert(components(library) =~= Seq::<Seq<char>>::empty());
        assert(components(join) =~= seq![ps[0]]);
        assert(components(join).drop_last() =~= components(library));
        assert(components(join).last() == ps[0]);
        lemma_last_named_skip(ps, 0, ps.len() as int);
    } else {
        let pre = if library.last() == '/' {
            library.drop_last()
        } else {
            library
        };
        let parts_lib = split(library, sep);
        let parts_join = split(join, sep);
        let p = split(pre, sep);
        crate::text_split::lemma_split_nonempty(pre, sep);
        if library.last() == '/' {
            assert(library =~= pre + sep + Seq::<char>::empty());
            assert(join =~= pre + sep + slug);
            crate::paths::lemma_split_concat(pre, Seq::<char>::empty(), '/');
            crate::paths::lemma_split_concat(pre, slug, '/');
            assert(split(Seq::<char>::empty(), sep) =~= seq![Seq::<char>::empty()]);
            assert(parts_lib == p + seq![Seq::<char>::empty()]);
            lemma_named_parts_concat(p, seq![Seq::<char>::empty()]);
            assert(named_parts(seq![Seq::<char>::empty()]) =~= Seq::<Seq<char>>::empty()) by {
                assert(seq![Seq::<char>::empty()].drop_last() =~= Seq::<Seq<char>>::empty());
                assert(named_parts(Seq::<Seq<char>>::empty()) =~= Seq::<Seq<char>>::empty());
                assert(!is_named_part(Seq::<char>::empty()));
            }
            assert(named_parts(parts_lib) =~= named_parts(p));
        } else {
            assert(join =~= pre + sep + slug);
            crate::paths::lemma_split_concat(pre, slug, '/');
        }
        assert(parts_join == p + ps);
        lemma_named_parts_concat(p, ps);
        assert(join[0] == library[0]);
        assert(parts_join[0] == p[0]);
        assert(parts_lib[0] == p[0]);
        assert(named_parts(parts_join) == named_parts(p) + seq![ps[0]]);
        assert(components(join) =~= components(library).push(ps[0]));
        assert(components(join).drop_last() =~= components(library));
        assert(components(join).last() == ps[0]);
        assert forall|j: int| p.len() < j < parts_join.len() implies !is_named_part(#[trigger] parts_join[j]) by {
            assert(parts_join[j] == ps[j - p.len()]);
        }
        assert(parts_join[p.len() as int] == ps[0]);
        lemma_last_named_skip(parts_join, p.len() as int, parts_join.len() as int);
    }
}

// ---------------------------------------------------------------------------
// Finding a saved URL
// ---------------------------------------------------------------------------

/// The first entry whose URL has the same canonical key as `url`.
pub open spec fn first_match(target: Seq<char>, urls: Seq<Seq<char>>, i: int) -> bool {
    0 <= i < urls.len() && canonical_key_spec(urls[i]) == Some(target) && forall|j: int|
        0 <= j < i ==> canonical_key_spec(#[trigger] urls[j]) != Some(target)
}

pub open spec fn entry_urls(entries: Seq<(String, String)>) -> Seq<Seq<char>> {
    entries.map_values(|e: (String, String)| e.1@)
}

/// Among the saved bookmarks, given as `(directory, url)` in library order,
/// the directory of the first whose URL has the same canonical key as `url`;
/// `None` when `url` has no canonical key or nothing matches.
pub fn find_bookmark_by_url(entries: &Vec<(String, String)>, url: &str) -> (r: Option<String>)
    ensures
        canonical_key_spec(url@) is None ==> r is None,
        canonical_key_spec(url@) matches Some(t) ==> match r {
            Some(d) => exists|i: int|
                #![trigger first_match(t, entry_urls(entries@), i)]
                first_match(t, entry_urls(entries@), i) && d@ == entries@[i].0@,
            None => forall|i: int|
                0 <= i < entries.len() ==> canonical_key_spec(#[trigger] entry_urls(entries@)[i])
                    != Some(t),
        },
{
    let target = match canonical_key(url) {
        None => return None,
        Some(t) => t,
    };
    let ghost urls = entry_urls(entries@);
    let mut i: usize = 0;
    while i < entries.len()
        invariant
            i <= entries.len(),
            urls == entry_urls(entries@),
            canonical_key_spec(url@) == Some(target@),
            forall|j: int| 0 <= j < i ==> canonical_key_spec(#[trigger] urls[j]) != Some(target@),
        decreases entries.len() - i,
    {
        let k = canonical_key(entries[i].1.as_str());
        assert(urls[i as int] == entries@[i as int].1@);
        let same = match &k {
            Some(kk) => eq_vec(&chars_of(kk.as_str()), &chars_of(target.as_str())),
            None => false,
        };
        if same {
            assert(first_match(target@, urls, i as int));
            let d = entries[i].0.clone();
            assert(d@ == entries@[i as int].0@);
            assert(first_match(target@, entry_urls(entries@), i as int));
            let r = Some(d);
            assert(canonical_key_spec(url@)->0 == target@);
            assert(exists|i2: int|
                #![trigger first_match(target@, entry_urls(entries@), i2)]
                first_match(target@, entry_urls(entries@), i2) && d@ == entries@[i2].0@);
            return r;
        }
        i += 1;
    }
    None
}

} // verus!
