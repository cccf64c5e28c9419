use vstd::prelude::*;

use crate::sorting::{keys_view, law_sort_by_keys, sort_by_keys, sort_indices, KeyView, SortKey};
use crate::text::{
    append_vec, ascii_lowercase, ascii_lowercase_vec, chars_of, eq_str, lit, lowercase_vec,
    push_decimal, decimal, slice_vec, starts_with, starts_with_vec, str_lowercase, string_of, trim,
    trim_str, lemma_less_total, is_ws, trim_start,
};

verus! {

/// What the `url` crate reports of a parsed URL, as plain values: the scheme,
/// the host, the explicit port, the path, the decoded query pairs, and the
/// serialization.
pub struct ParsedUrl {
    pub scheme: String,
    pub host: Option<String>,
    pub port: Option<u16>,
    pub path: String,
    pub query_pairs: Vec<(String, String)>,
    pub serialization: String,
}

pub struct UrlView {
    pub scheme: Seq<char>,
    pub host: Option<Seq<char>>,
    pub port: Option<u16>,
    pub path: Seq<char>,
    pub query_pairs: Seq<(Seq<char>, Seq<char>)>,
    pub serialization: Seq<char>,
}

pub open spec fn pair_view(p: (String, String)) -> (Seq<char>, Seq<char>) {
    (p.0@, p.1@)
}

pub open spec fn pairs_view(ps: Seq<(String, String)>) -> Seq<(Seq<char>, Seq<char>)> {
    ps.map_values(|p: (String, String)| pair_view(p))
}

impl View for ParsedUrl {
    type V = UrlView;

    open spec fn view(&self) -> UrlView {
        UrlView {
            scheme: self.scheme@,
            host: crate::model::opt_view(self.host),
            port: self.port,
            path: self.path@,
            query_pairs: pairs_view(self.query_pairs@),
            serialization: self.serialization@,
        }
    }
}

pub open spec fn parsed_view(o: Option<ParsedUrl>) -> Option<UrlView> {
    match o {
        Some(u) => Some(u@),
        None => None,
    }
}

/// What `url::Url::parse` gives for an input: `None` where it returns an
/// error, else the parts of the URL.
pub uninterp spec fn url_parse(input: Seq<char>) -> Option<UrlView>;

/// Whether every character of `s` is a visible ASCII character (above the
/// space and below 128).
pub open spec fn visible_ascii(s: Seq<char>) -> bool {
    forall|i: int| 0 <= i < s.len() ==> 32 < (#[trigger] s[i] as u32) < 128
}

/// Calls `url::Url::parse` and reads the parsed URL's `scheme`, `host_str`,
/// `port`, `path`, `query_pairs` and its serialization (`to_string`). The
/// outcome is the named parse of the input. Of a URL with a host, the
/// contract also states two facts of the `url` crate's source:
/// - parsing its serialization again gives the same URL: the invariant that
///   `Url::check_invariants` asserts for every URL (the same serialization,
///   and the same bounds of scheme, host, port, path and query), with the
///   one exception it names, a URL without a host;
/// - the serialization is visible ASCII: the scheme, host, port, path,
///   query and user info are documented as (percent-encoded) ASCII, the
///   parser writes the fragment through `utf8_percent_encode`, and the
///   percent-encode sets of these parts (for a URL with a host) hold the
///   controls and the space.
#[verifier::external_body]
pub(crate) fn parse_url(input: &str) -> (r: Option<ParsedUrl>)
    ensures
        parsed_view(r) == url_parse(input@),
        r matches Some(u) ==> (u.host is Some ==> url_parse(u.serialization@) == Some(u@)),
        r matches Some(u) ==> (u.host is Some ==> visible_ascii(u.serialization@)),
{
    url::Url::parse(input).ok().map(|u| ParsedUrl {
        scheme: u.scheme().to_string(),
        host: u.host_str().map(|h| h.to_string()),
        port: u.port(),
        path: u.path().to_string(),
        query_pairs: u.query_pairs().map(|(k, v)| (k.into_owned(), v.into_owned())).collect(),
        serialization: u.to_string(),
    })
}

/// What `url::form_urlencoded::Serializer` writes for the given pairs.
pub uninterp spec fn form_urlencoded(pairs: Seq<(Seq<char>, Seq<char>)>) -> Seq<char>;

/// Serializes the pairs with `url::form_urlencoded::Serializer` (`extend_pairs`,
/// then `finish`). The encoding is named, not written out.
#[verifier::external_body]
fn encode_pairs(pairs: &Vec<(String, String)>) -> (r: String)
    ensures
        r@ == form_urlencoded(pairs_view(pairs@)),
{
    url::form_urlencoded::Serializer::new(String::new()).extend_pairs(pairs.iter()).finish()
}

/// Why a string is not accepted as a bookmark URL.
#[derive(Debug, Clone, Copy, PartialEq, Eq)]
pub enum UrlError {
    /// The string does not parse as an absolute URL.
    Invalid,
    /// The URL does not use http or https, or has no host.
    NotWeb,
}

pub open spec fn is_web_scheme(s: Seq<char>) -> bool {
    s == "http"@ || s == "https"@
}

fn is_web_scheme_exec(s: &String) -> (r: bool)
    ensures
        r == is_web_scheme(s@),
{
    let v = chars_of(s.as_str());
    eq_str(&v, "http") || eq_str(&v, "https")
}

/// The result of `normalize` on `input`.
pub open spec fn normalize_spec(input: Seq<char>) -> Result<Seq<char>, UrlError> {
    match url_parse(trim(input)) {
        None => Err(UrlError::Invalid),
        Some(u) => if is_web_scheme(u.scheme) && u.host is Some {
            Ok(u.serialization)
        } else {
            Err(UrlError::NotWeb)
        },
    }
}

pub open spec fn result_view(r: Result<String, UrlError>) -> Result<Seq<char>, UrlError> {
    match r {
        Ok(s) => Ok(s@),
        Err(e) => Err(e),
    }
}

/// Parses a URL that a user typed: it must be an absolute http or https URL
/// with a host. Returns its serialization.
/// Text with no whitespace at either end is its own trim.
proof fn lemma_trim_visible(s: Seq<char>)
    requires
        visible_ascii(s),
    ensures
        trim(s) == s,
{
    if s.len() > 0 {
        assert(32 < (s[0] as u32) < 128);
        assert(!is_ws(s[0]));
        assert(trim_start(s) == s);
        assert(32 < (s[s.len() - 1] as u32) < 128);
        assert(!is_ws(s.last()));
    }
}

/// Normalizes a URL: the trimmed input parsed, which must be an http or
/// https URL with a host, and written out again. A normalized URL
/// normalizes to itself and has a canonical key.
pub fn normalize(input: &str) -> (r: Result<String, UrlError>)
    ensures
        result_view(r) == normalize_spec(input@),
        r matches Ok(n) ==> normalize_spec(n@) == Ok::<Seq<char>, UrlError>(n@),
        r matches Ok(n) ==> canonical_key_spec(n@) is Some,
{
    let t = trim_str(input);
    match parse_url(t.as_str()) {
        None => Err(UrlError::Invalid),
        Some(u) => {
            if is_web_scheme_exec(&u.scheme) && u.host.is_some() {
                proof {
                    lemma_trim_visible(u.serialization@);
                }
                Ok(u.serialization)
            } else {
                Err(UrlError::NotWeb)
            }
        },
    }
}

/// Whether a query parameter name is one used only for tracking: any name
/// starting with `utm_`, or `fbclid`, `gclid`, `dclid`, `mc_cid`, `mc_eid`,
/// compared without ASCII case.
pub open spec fn is_tracking_param(name: Seq<char>) -> bool {
    let l = ascii_lowercase(name);
    starts_with(l, "utm_"@) || l == "fbclid"@ || l == "gclid"@ || l == "dclid"@ || l
        == "mc_cid"@ || l == "mc_eid"@
}

pub fn is_tracking_parameter(name: &str) -> (r: bool)
    ensures
        r == is_tracking_param(name@),
{
    let l = ascii_lowercase_vec(&chars_of(name));
    let utm = lit("utm_");
    starts_with_vec(&l, &utm) || eq_str(&l, "fbclid") || eq_str(&l, "gclid") || eq_str(
        &l,
        "dclid",
    ) || eq_str(&l, "mc_cid") || eq_str(&l, "mc_eid")
}

/// The query pairs whose names are not tracking parameters, in order.
pub open spec fn kept_pairs(ps: Seq<(Seq<char>, Seq<char>)>) -> Seq<(Seq<char>, Seq<char>)>
    decreases ps.len(),
{
    if ps.len() == 0 {
        seq![]
    } else {
        kept_pairs(ps.drop_last()) + if is_tracking_param(ps.last().0) {
            seq![]
        } else {
            seq![ps.last()]
        }
    }
}

/// `0, 1, ..., n - 1`.
pub open spec fn iota(n: nat) -> Seq<usize> {
    Seq::new(n, |i: int| i as usize)
}

pub open spec fn pair_keys(ps: Seq<(Seq<char>, Seq<char>)>) -> Seq<KeyView> {
    ps.map_values(|p: (Seq<char>, Seq<char>)| KeyView::Pair(p.0, p.1))
}

/// The pairs in ascending order (by name, then value), as `slice::sort` on
/// `(String, String)` orders them.
pub open spec fn sort_pairs(ps: Seq<(Seq<char>, Seq<char>)>) -> Seq<(Seq<char>, Seq<char>)> {
    let order = sort_by_keys(pair_keys(ps), false, iota(ps.len()));
    order.map_values(|i: usize| ps[i as int])
}

/// `h` without a leading `www.`.
pub open spec fn strip_www(h: Seq<char>) -> Seq<char> {
    if starts_with(h, "www."@) {
        h.skip(4)
    } else {
        h
    }
}

/// `p` without its trailing slashes (`trim_end_matches('/')`).
pub open spec fn trim_end_slashes(p: Seq<char>) -> Seq<char>
    decreases p.len(),
{
    if p.len() > 0 && p.last() == '/' {
        trim_end_slashes(p.drop_last())
    } else {
        p
    }
}

/// The key of a parsed web URL with the given host: the lowercased host
/// without `www.`, `:port` if the URL names a non-default port, the path
/// without trailing slashes, and `?` with the sorted, re-encoded query pairs
/// that are not tracking parameters, if there are any.
pub open spec fn key_of(u: UrlView, h: Seq<char>) -> Seq<char> {
    let host = strip_www(str_lowercase(h));
    let port = match u.port {
        Some(p) => seq![':'] + decimal(p as nat),
        None => seq![],
    };
    let q = sort_pairs(kept_pairs(u.query_pairs));
    let query = if q.len() == 0 {
        seq![]
    } else {
        seq!['?'] + form_urlencoded(q)
    };
    host + port + trim_end_slashes(u.path) + query
}

/// The result of `canonical_key` on `input`.
pub open spec fn canonical_key_spec(input: Seq<char>) -> Option<Seq<char>> {
    match url_parse(trim(input)) {
        None => None,
        Some(u) => if !is_web_scheme(u.scheme) {
            None
        } else {
            match u.host {
                None => None,
                Some(h) => Some(key_of(u, h)),
            }
        },
    }
}

pub open spec fn opt_str_view(o: Option<String>) -> Option<Seq<char>> {
    crate::model::opt_view(o)
}

fn kept_query_pairs(ps: &Vec<(String, String)>) -> (r: Vec<(String, String)>)
    ensures
        pairs_view(r@) == kept_pairs(pairs_view(ps@)),
{
    let mut out: Vec<(String, String)> = Vec::new();
    let mut i: usize = 0;
    while i < ps.len()
        invariant
            i <= ps.len(),
            pairs_view(out@) == kept_pairs(pairs_view(ps@.take(i as int))),
        decreases ps.len() - i,
    {
        let ghost before = out@;
        assert(pairs_view(ps@.take(i + 1)).drop_last() =~= pairs_view(ps@.take(i as int)));
        assert(pairs_view(ps@.take(i + 1)).last() == pair_view(ps@[i as int]));
        if !is_tracking_parameter(ps[i].0.as_str()) {
            out.push((ps[i].0.clone(), ps[i].1.clone()));
            assert(pairs_view(out@) =~= pairs_view(before) + seq![pair_view(ps@[i as int])]);
        } else {
            assert(pairs_view(out@) =~= pairs_view(before) + Seq::<(Seq<char>, Seq<char>)>::empty());
        }
        i += 1;
    }
    assert(ps@.take(ps.len() as int) =~= ps@);
    out
}

fn sorted_query_pairs(ps: &Vec<(String, String)>) -> (r: Vec<(String, String)>)
    ensures
        pairs_view(r@) == sort_pairs(pairs_view(ps@)),
{
    let ghost pv = pairs_view(ps@);
    let mut keys: Vec<SortKey> = Vec::new();
    let mut items: Vec<usize> = Vec::new();
    let mut i: usize = 0;
    while i < ps.len()
        invariant
            i <= ps.len(),
            pv == pairs_view(ps@),
            keys.len() == i,
            keys_view(keys@) == pair_keys(pv.take(i as int)),
            items@ == iota(i as nat),
        decreases ps.len() - i,
    {
        let k = SortKey::Pair(chars_of(ps[i].0.as_str()), chars_of(ps[i].1.as_str()));
        assert(k@ == KeyView::Pair(pv[i as int].0, pv[i as int].1));
        let ghost kb = keys@;
        keys.push(k);
        assert(keys@ == kb.push(k));
        assert(pv.take(i + 1) =~= pv.take(i as int).push(pv[i as int]));
        assert(keys_view(keys@) =~= keys_view(kb).push(k@));
        assert(pair_keys(pv.take(i + 1)) =~= pair_keys(pv.take(i as int)).push(
            KeyView::Pair(pv[i as int].0, pv[i as int].1),
        ));
        items.push(i);
        i += 1;
        assert(keys_view(keys@) =~= pair_keys(pv.take(i as int)));
        assert(items@ =~= iota(i as nat));
    }
    assert(pv.take(ps.len() as int) =~= pv);
    let order = sort_indices(&keys, false, &items);
    let mut out: Vec<(String, String)> = Vec::new();
    let mut j: usize = 0;
    while j < order.len()
        invariant
            j <= order.len(),
            pv == pairs_view(ps@),
            keys.len() == ps.len(),
            forall|k: int| 0 <= k < order.len() ==> #[trigger] order@[k] < keys.len(),
            out.len() == j,
            forall|k: int|
                0 <= k < j ==> pair_view(#[trigger] out@[k]) == pv[order@[k] as int],
        decreases order.len() - j,
    {
        let idx = order[j];
        out.push((ps[idx].0.clone(), ps[idx].1.clone()));
        j += 1;
    }
    assert(pairs_view(out@) =~= order@.map_values(|k: usize| pv[k as int]));
    out
}

/// A key under which URLs that lead to the same page compare equal: `None`
/// for text that is not an http or https URL with a host.
pub fn canonical_key(input: &str) -> (r: Option<String>)
    ensures
        opt_str_view(r) == canonical_key_spec(input@),
{
    let t = trim_str(input);
    let u = match parse_url(t.as_str()) {
        None => return None,
        Some(u) => u,
    };
    if !is_web_scheme_exec(&u.scheme) {
        return None;
    }
    let h = match &u.host {
        None => return None,
        Some(h) => h,
    };
    let low = lowercase_vec(&chars_of(h.as_str()));
    let www = lit("www.");
    proof {
        reveal_strlit("www.");
    }
    let mut key = if starts_with_vec(&low, &www) {
        slice_vec(&low, 4, low.len())
    } else {
        low
    };
    let ghost host_part = key@;
    assert(host_part == strip_www(str_lowercase(u@.host->0)));
    if let Some(port) = u.port {
        key.push(':');
        push_decimal(&mut key, port as u128);
    }
    let ghost port_part = key@;
    assert(port_part =~= host_part + match u@.port {
        Some(p) => seq![':'] + decimal(p as nat),
        None => seq![],
    });
    let path = chars_of(u.path.as_str());
    let mut end = path.len();
    assert(path@.take(path.len() as int) =~= path@);
    while end > 0 && path[end - 1] == '/'
        invariant
            end <= path.len(),
            trim_end_slashes(path@) == trim_end_slashes(path@.take(end as int)),
        decreases end,
    {
        assert(path@.take(end as int).drop_last() =~= path@.take(end - 1));
        end -= 1;
    }
    assert(path@.take(path.len() as int) =~= path@);
    let trimmed = slice_vec(&path, 0, end);
    assert(trimmed@ =~= path@.take(end as int));
    append_vec(&mut key, &trimmed);
    let kept = kept_query_pairs(&u.query_pairs);
    let sorted = sorted_query_pairs(&kept);
    if sorted.len() > 0 {
        let enc = encode_pairs(&sorted);
        key.push('?');
        append_vec(&mut key, &chars_of(enc.as_str()));
    }
    assert(key@ =~= key_of(u@, u@.host->0));
    Some(string_of(&key))
}

// ---------------------------------------------------------------------------
// Query order does not matter
// ---------------------------------------------------------------------------

/// The order of query pairs: by name, then by value.
pub open spec fn pair_less(a: (Seq<char>, Seq<char>), b: (Seq<char>, Seq<char>)) -> bool {
    crate::sorting::key_less(KeyView::Pair(a.0, a.1), KeyView::Pair(b.0, b.1))
}

pub open spec fn pairs_sorted(a: Seq<(Seq<char>, Seq<char>)>) -> bool {
    forall|i: int, j: int| 0 <= i < j < a.len() ==> !pair_less(#[trigger] a[j], #[trigger] a[i])
}

proof fn lemma_kept_len(ps: Seq<(Seq<char>, Seq<char>)>)
    ensures
        kept_pairs(ps).len() <= ps.len(),
    decreases ps.len(),
{
    if ps.len() > 0 {
        lemma_kept_len(ps.drop_last());
    }
}

proof fn lemma_pair_total(a: (Seq<char>, Seq<char>), b: (Seq<char>, Seq<char>))
    ensures
        pair_less(a, b) || pair_less(b, a) || a == b,
{
    lemma_less_total(a.0, b.0);
    lemma_less_total(a.1, b.1);
}

proof fn lemma_map_multiset(o: Seq<usize>, s: Seq<usize>, q: Seq<(Seq<char>, Seq<char>)>)
    requires
        o.to_multiset() == s.to_multiset(),
    ensures
        o.map_values(|i: usize| q[i as int]).to_multiset() == s.map_values(|i: usize| q[i as int]).to_multiset(),
    decreases o.len(),
{
    broadcast use vstd::seq_lib::group_to_multiset_ensures;
    broadcast use vstd::multiset::group_multiset_axioms;

    let f = |i: usize| q[i as int];
    vstd::seq_lib::to_multiset_len(o);
    vstd::seq_lib::to_multiset_len(s);
    assert(o.len() == s.len());
    if o.len() > 0 {
        let x = o[0];
        assert(o.to_multiset().count(x) > 0);
        assert(s.contains(x));
        let k = choose|k: int| 0 <= k < s.len() && s[k] == x;
        assert(o =~= o.drop_first().insert(0, x));
        assert(s.remove(k).to_multiset() == s.to_multiset().remove(x));
        assert(o.drop_first().to_multiset() =~= o.to_multiset().remove(x));
        lemma_map_multiset(o.drop_first(), s.remove(k), q);
        let om = o.map_values(f);
        let sm = s.map_values(f);
        assert(om =~= o.drop_first().map_values(f).insert(0, q[x as int]));
        assert(s.remove(k).map_values(f) =~= sm.remove(k));
        assert(sm[k] == q[x as int]);
        assert(sm.to_multiset().count(q[x as int]) > 0);
        assert(sm.remove(k).to_multiset() == sm.to_multiset().remove(q[x as int]));
        assert(sm.to_multiset().remove(q[x as int]).insert(q[x as int]) =~= sm.to_multiset());
    } else {
        assert(o.map_values(f) =~= s.map_values(f));
    }
}

proof fn lemma_sort_pairs(q: Seq<(Seq<char>, Seq<char>)>)
    requires
        q.len() <= usize::MAX,
    ensures
        pairs_sorted(sort_pairs(q)),
        sort_pairs(q).to_multiset() == q.to_multiset(),
{
    broadcast use vstd::seq_lib::group_to_multiset_ensures;

    let keys = pair_keys(q);
    let ids = iota(q.len());
    let o = sort_by_keys(keys, false, ids);
    law_sort_by_keys(keys, false, ids);
    let out = sort_pairs(q);
    assert(out == o.map_values(|i: usize| q[i as int]));
    assert forall|m: int| 0 <= m < o.len() implies #[trigger] o[m] < q.len() by {
        assert(o.to_multiset().count(o[m]) > 0);
        assert(ids.contains(o[m]));
    }
    assert forall|i: int, j: int| 0 <= i < j < out.len() implies !pair_less(#[trigger] out[j], #[trigger] out[i]) by {
        assert(!crate::sorting::precedes(keys, false, o[j], o[i]));
        assert(o[j] < q.len() && o[i] < q.len());
        assert(keys[o[j] as int] == KeyView::Pair(q[o[j] as int].0, q[o[j] as int].1));
        assert(keys[o[i] as int] == KeyView::Pair(q[o[i] as int].0, q[o[i] as int].1));
    }
    lemma_map_multiset(o, ids, q);
    assert(ids.map_values(|i: usize| q[i as int]) =~= q);
}

proof fn lemma_sorted_unique(a: Seq<(Seq<char>, Seq<char>)>, b: Seq<(Seq<char>, Seq<char>)>)
    requires
        pairs_sorted(a),
        pairs_sorted(b),
        a.to_multiset() == b.to_multiset(),
    ensures
        a == b,
    decreases a.len(),
{
    broadcast use vstd::seq_lib::group_to_multiset_ensures;

    vstd::seq_lib::to_multiset_len(a);
    vstd::seq_lib::to_multiset_len(b);
    assert(a.len() == b.len());
    if a.len() > 0 {
        assert(a.to_multiset().count(a[0]) > 0);
        assert(b.to_multiset().count(b[0]) > 0);
        assert(b.contains(a[0]));
        assert(a.contains(b[0]));
        let k = choose|k: int| 0 <= k < b.len() && b[k] == a[0];
        let m = choose|m: int| 0 <= m < a.len() && a[m] == b[0];
        lemma_pair_total(a[0], b[0]);
        if a[0] != b[0] {
            if pair_less(a[0], b[0]) {
                assert(k > 0);
                assert(!pair_less(b[k], b[0]));
            } else {
                assert(m > 0);
                assert(!pair_less(a[m], a[0]));
            }
        }
        assert(a.remove(0) =~= a.drop_first());
        assert(b.remove(0) =~= b.drop_first());
        assert(a.drop_first().to_multiset() == b.drop_first().to_multiset());
        assert(pairs_sorted(a.drop_first())) by {
            assert forall|i: int, j: int| 0 <= i < j < a.drop_first().len() implies !pair_less(
                #[trigger] a.drop_first()[j],
                #[trigger] a.drop_first()[i],
            ) by {
                assert(a.drop_first()[j] == a[j + 1] && a.drop_first()[i] == a[i + 1]);
            }
        }
        assert(pairs_sorted(b.drop_first())) by {
            assert forall|i: int, j: int| 0 <= i < j < b.drop_first().len() implies !pair_less(
                #[trigger] b.drop_first()[j],
                #[trigger] b.drop_first()[i],
            ) by {
                assert(b.drop_first()[j] == b[j + 1] && b.drop_first()[i] == b[i + 1]);
            }
        }
        lemma_sorted_unique(a.drop_first(), b.drop_first());
        assert(a =~= b.drop_first().insert(0, b[0]));
        assert(b =~= b.drop_first().insert(0, b[0]));
    } else {
        assert(a =~= b);
    }
}

/// The canonical key of a parsed web URL depends only on its host (ignoring
/// case and a leading `www.`), its port, its path (ignoring trailing
/// slashes) and the query pairs that are not tracking parameters, in any
/// order; not on the scheme, the fragment, or the order of the query.
pub proof fn law_key_ignores_variants(u1: UrlView, h1: Seq<char>, u2: UrlView, h2: Seq<char>)
    requires
        strip_www(str_lowercase(h1)) == strip_www(str_lowercase(h2)),
        u1.port == u2.port,
        trim_end_slashes(u1.path) == trim_end_slashes(u2.path),
        kept_pairs(u1.query_pairs).to_multiset() == kept_pairs(u2.query_pairs).to_multiset(),
        u1.query_pairs.len() <= usize::MAX,
        u2.query_pairs.len() <= usize::MAX,
    ensures
        key_of(u1, h1) == key_of(u2, h2),
{
    let q1 = kept_pairs(u1.query_pairs);
    let q2 = kept_pairs(u2.query_pairs);
    lemma_kept_len(u1.query_pairs);
    lemma_kept_len(u2.query_pairs);
    lemma_sort_pairs(q1);
    lemma_sort_pairs(q2);
    lemma_sorted_unique(sort_pairs(q1), sort_pairs(q2));
}

/// Two inputs that parse to http or https URLs with hosts get the same
/// canonical key when the URLs agree as `law_key_ignores_variants` asks,
/// whichever of the two schemes each uses.
pub proof fn law_canonical_key_variants(x: Seq<char>, y: Seq<char>)
    requires
        url_parse(trim(x)) matches Some(u1) && is_web_scheme(u1.scheme) && u1.host is Some,
        url_parse(trim(y)) matches Some(u2) && is_web_scheme(u2.scheme) && u2.host is Some,
        strip_www(str_lowercase(url_parse(trim(x))->0.host->0)) == strip_www(
            str_lowercase(url_parse(trim(y))->0.host->0),
        ),
        url_parse(trim(x))->0.port == url_parse(trim(y))->0.port,
        trim_end_slashes(url_parse(trim(x))->0.path) == trim_end_slashes(url_parse(trim(y))->0.path),
        kept_pairs(url_parse(trim(x))->0.query_pairs).to_multiset() == kept_pairs(
            url_parse(trim(y))->0.query_pairs,
        ).to_multiset(),
        url_parse(trim(x))->0.query_pairs.len() <= usize::MAX,
        url_parse(trim(y))->0.query_pairs.len() <= usize::MAX,
    ensures
        canonical_key_spec(x) == canonical_key_spec(y),
        canonical_key_spec(x) is Some,
{
    let u1 = url_parse(trim(x))->0;
    let u2 = url_parse(trim(y))->0;
    law_key_ignores_variants(u1, u1.host->0, u2, u2.host->0);
}

} // verus!
