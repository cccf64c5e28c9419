use vstd::prelude::*;

use crate::model::{opt_view, strs_view, Bookmark, BookmarkView};
use crate::text::{chars_of, decimal, decimal_vec, eq_vec, lit, string_of};
use crate::text_split::{join, join_strings};

verus! {

/// One changed field of an enrichment: its name, the old text and the new.
pub type FieldDiff = (String, String, String);

pub open spec fn diff_view(d: FieldDiff) -> (Seq<char>, Seq<char>, Seq<char>) {
    (d.0@, d.1@, d.2@)
}

pub open spec fn diffs_view(v: Seq<FieldDiff>) -> Seq<(Seq<char>, Seq<char>, Seq<char>)> {
    v.map_values(|d: FieldDiff| diff_view(d))
}

/// The text of an optional field, empty when it is missing.
pub open spec fn or_empty(o: Option<Seq<char>>) -> Seq<char> {
    match o {
        Some(s) => s,
        None => seq![],
    }
}

/// The text of an optional year, empty when it is missing.
pub open spec fn year_text(y: Option<u16>) -> Seq<char> {
    match y {
        Some(n) => decimal(n as nat),
        None => seq![],
    }
}

/// The fields that enriching `o` into `n` would change, in the order title,
/// description, authors, site, year. A field is listed when it differs and
/// its new value is present (a non-empty title, a description, a non-empty
/// author list, a site, a year); authors are shown joined by ", ".
pub open spec fn diffs_spec(o: BookmarkView, n: BookmarkView) -> Seq<(Seq<char>, Seq<char>, Seq<char>)> {
    let title = if o.title != n.title && n.title.len() > 0 {
        seq![("title"@, o.title, n.title)]
    } else {
        seq![]
    };
    let description = if o.description != n.description && n.description is Some {
        seq![("description"@, or_empty(o.description), or_empty(n.description))]
    } else {
        seq![]
    };
    let authors = if o.authors != n.authors && n.authors.len() > 0 {
        seq![("authors"@, join(o.authors, ", "@), join(n.authors, ", "@))]
    } else {
        seq![]
    };
    let site = if o.site != n.site && n.site is Some {
        seq![("site"@, or_empty(o.site), or_empty(n.site))]
    } else {
        seq![]
    };
    let year = if o.year != n.year && n.year is Some {
        seq![("year"@, year_text(o.year), year_text(n.year))]
    } else {
        seq![]
    };
    title + description + authors + site + year
}

fn eq_string(a: &String, b: &String) -> (r: bool)
    ensures
        r == (a@ == b@),
{
    eq_vec(&chars_of(a.as_str()), &chars_of(b.as_str()))
}

fn eq_opt(a: &Option<String>, b: &Option<String>) -> (r: bool)
    ensures
        r == (opt_view(*a) == opt_view(*b)),
{
    match (a, b) {
        (Some(x), Some(y)) => eq_string(x, y),
        (None, None) => true,
        _ => false,
    }
}

fn eq_strs(a: &Vec<String>, b: &Vec<String>) -> (r: bool)
    ensures
        r == (strs_view(*a) == strs_view(*b)),
{
    let ghost av = strs_view(*a);
    let ghost bv = strs_view(*b);
    if a.len() != b.len() {
        assert(av.len() != bv.len());
        return false;
    }
    let mut i: usize = 0;
    while i < a.len()
        invariant
            i <= a.len(),
            a.len() == b.len(),
            av == strs_view(*a),
            bv == strs_view(*b),
            forall|j: int| 0 <= j < i ==> av[j] == bv[j],
        decreases a.len() - i,
    {
        if !eq_string(&a[i], &b[i]) {
            assert(av[i as int] != bv[i as int]);
            return false;
        }
        i += 1;
    }
    assert(av =~= bv);
    true
}

fn opt_text(o: &Option<String>) -> (r: String)
    ensures
        r@ == or_empty(opt_view(*o)),
{
    match o {
        Some(s) => s.clone(),
        None => String::new(),
    }
}

fn year_string(y: Option<u16>) -> (r: String)
    ensures
        r@ == year_text(y),
{
    match y {
        Some(n) => string_of(&decimal_vec(n as u128)),
        None => String::new(),
    }
}

fn push_diff(
    diffs: &mut Vec<FieldDiff>,
    name: &str,
    old_text: String,
    new_text: String,
)
    ensures
        diffs_view(final(diffs)@) == diffs_view(old(diffs)@).push((name@, old_text@, new_text@)),
{
    let ghost before = diffs@;
    diffs.push((string_of(&chars_of(name)), old_text, new_text));
    assert(diffs_view(diffs@) =~= diffs_view(before).push((name@, old_text@, new_text@)));
}

/// The fields that enriching `old` into `new` changes (see `diffs_spec`).
pub fn compute_diffs(old: &Bookmark, new: &Bookmark) -> (r: Vec<FieldDiff>)
    ensures
        diffs_view(r@) == diffs_spec(old@, new@),
{
    let mut diffs: Vec<FieldDiff> = Vec::new();
    proof {
        reveal_strlit("title");
        reveal_strlit("description");
        reveal_strlit("authors");
        reveal_strlit("site");
        reveal_strlit("year");
    }
    assert(diffs_view(diffs@) =~= Seq::<(Seq<char>, Seq<char>, Seq<char>)>::empty());
    if !eq_string(&old.title, &new.title) && !new.title.as_str().is_empty() {
        push_diff(&mut diffs, "title", old.title.clone(), new.title.clone());
    }
    if !eq_opt(&old.description, &new.description) && new.description.is_some() {
        push_diff(&mut diffs, "description", opt_text(&old.description), opt_text(&new.description));
    }
    if !eq_strs(&old.authors, &new.authors) && new.authors.len() > 0 {
        let o = join_strings(&old.authors, ", ");
        let n = join_strings(&new.authors, ", ");
        assert(old.authors@.map_values(|v: String| v@) == strs_view(old.authors));
        assert(new.authors@.map_values(|v: String| v@) == strs_view(new.authors));
        push_diff(&mut diffs, "authors", o, n);
    }
    if !eq_opt(&old.site, &new.site) && new.site.is_some() {
        push_diff(&mut diffs, "site", opt_text(&old.site), opt_text(&new.site));
    }
    if old.year != new.year && new.year.is_some() {
        push_diff(&mut diffs, "year", year_string(old.year), year_string(new.year));
    }
    assert(diffs_view(diffs@) =~= diffs_spec(old@, new@));
    diffs
}

/// What stopping the enrichment proposals reports, if anything: how many
/// proposals were applied, and how many were skipped, counting the one on
/// screen and those still queued as skipped.
pub open spec fn finish_message_spec(applied: nat, skipped: nat, queued: nat) -> Option<Seq<char>> {
    if applied > 0 || skipped > 0 {
        Some("Enriched "@ + decimal(applied) + ", skipped "@ + decimal(skipped + queued + 1))
    } else {
        None
    }
}

/// The message shown when the queue of proposals runs out.
pub open spec fn done_message_spec(applied: nat, skipped: nat) -> Seq<char> {
    "Enriched "@ + decimal(applied) + ", skipped "@ + decimal(skipped)
}

fn counts_message(applied: u128, skipped: u128) -> (r: String)
    ensures
        r@ == "Enriched "@ + decimal(applied as nat) + ", skipped "@ + decimal(skipped as nat),
{
    let mut out = lit("Enriched ");
    let a = decimal_vec(applied);
    let s = decimal_vec(skipped);
    let sep = lit(", skipped ");
    let ghost start = out@;
    let mut i: usize = 0;
    while i < a.len()
        invariant
            i <= a.len(),
            out@ == start + a@.take(i as int),
        decreases a.len() - i,
    {
        out.push(a[i]);
        i += 1;
        assert(out@ =~= start + a@.take(i as int));
    }
    assert(a@.take(a.len() as int) =~= a@);
    let ghost mid = out@;
    let mut j: usize = 0;
    while j < sep.len()
        invariant
            j <= sep.len(),
            out@ == mid + sep@.take(j as int),
        decreases sep.len() - j,
    {
        out.push(sep[j]);
        j += 1;
        assert(out@ =~= mid + sep@.take(j as int));
    }
    assert(sep@.take(sep.len() as int) =~= sep@);
    let ghost mid2 = out@;
    let mut k: usize = 0;
    while k < s.len()
        invariant
            k <= s.len(),
            out@ == mid2 + s@.take(k as int),
        decreases s.len() - k,
    {
        out.push(s[k]);
        k += 1;
        assert(out@ =~= mid2 + s@.take(k as int));
    }
    assert(s@.take(s.len() as int) =~= s@);
    string_of(&out)
}

/// The message for stopping the proposals with `applied` applied, `skipped`
/// skipped and `queued` proposals not yet shown.
pub fn finish_message(applied: usize, skipped: usize, queued: usize) -> (r: Option<String>)
    ensures
        match r {
            Some(m) => finish_message_spec(applied as nat, skipped as nat, queued as nat) == Some(m@),
            None => finish_message_spec(applied as nat, skipped as nat, queued as nat) is None,
        },
{
    if applied > 0 || skipped > 0 {
        let total: u128 = skipped as u128 + queued as u128 + 1;
        Some(counts_message(applied as u128, total))
    } else {
        None
    }
}

/// The message for when the queue of proposals runs out.
pub fn done_message(applied: usize, skipped: usize) -> (r: String)
    ensures
        r@ == done_message_spec(applied as nat, skipped as nat),
{
    counts_message(applied as u128, skipped as u128)
}

} // verus!
