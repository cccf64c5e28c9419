use vstd::prelude::*;

use crate::model::strs_view;
use crate::text::{chars_of, eq_str};
use crate::theme::{expand_home, expand_home_spec, theme_name, theme_name_spec};
use crate::urls::{pair_view, pairs_view};

verus! {

/// A TOML value as the theme catalog reads it: strings, arrays and tables
/// are kept; numbers, booleans and dates are `Other`.
pub enum TomlValue {
    Str(String),
    Array(Vec<TomlValue>),
    Table(Vec<(String, TomlValue)>),
    Other,
}

#[verifier::external_type_specification]
#[verifier::external_body]
pub struct ExTomlValue(toml::Value);

/// What `toml::Value`'s `FromStr` makes of a document, converted to
/// `TomlValue` (tables keep their keys in the map's order); `None` where
/// the text is not valid TOML.
pub uninterp spec fn toml_parse(contents: Seq<char>) -> Option<TomlValue>;

/// Converts a parsed `toml::Value` into a `TomlValue`, one arm per variant;
/// the contents of arrays and tables are converted the same way.
#[verifier::external_body]
fn toml_value_from(v: &toml::Value) -> (r: TomlValue) {
    match v {
        toml::Value::String(s) => TomlValue::Str(s.clone()),
        toml::Value::Array(a) => TomlValue::Array(a.iter().map(toml_value_from).collect()),
        toml::Value::Table(t) => TomlValue::Table(
            t.iter().map(|(k, x)| (k.clone(), toml_value_from(x))).collect(),
        ),
        _ => TomlValue::Other,
    }
}

/// Parses `contents` with `str::parse::<toml::Value>` (which reads it as a
/// TOML document). The result is named, not stated: it is `toml_parse` of
/// the text, `None` where the parser reports an error.
#[verifier::external_body]
fn parse_toml_value(contents: &str) -> (r: Option<TomlValue>)
    ensures
        r == toml_parse(contents@),
{
    contents.parse::<toml::Value>().ok().map(|v| toml_value_from(&v))
}

/// The value stored under `key` in a table's entries (the first entry with
/// that key, as `toml::Value::get` finds the only one).
pub open spec fn table_get(t: Seq<(String, TomlValue)>, key: Seq<char>) -> Option<TomlValue>
    decreases t.len(),
{
    if t.len() == 0 {
        None
    } else if t[0].0@ == key {
        Some(t[0].1)
    } else {
        table_get(t.skip(1), key)
    }
}

/// The strings among the items of an array, in order (`filter_map(as_str)`).
pub open spec fn str_items(items: Seq<TomlValue>) -> Seq<Seq<char>>
    decreases items.len(),
{
    if items.len() == 0 {
        seq![]
    } else {
        let rest = str_items(items.drop_last());
        match items.last() {
            TomlValue::Str(s) => rest.push(s@),
            _ => rest,
        }
    }
}

/// The theme paths a catalog lists: the string items of its `themes`
/// array; nothing when the document is not a table, has no `themes` or
/// `themes` is not an array.
pub open spec fn catalog_paths_spec(v: TomlValue) -> Seq<Seq<char>> {
    match v {
        TomlValue::Table(t) => match table_get(t@, "themes"@) {
            Some(TomlValue::Array(a)) => str_items(a@),
            _ => seq![],
        },
        _ => seq![],
    }
}

/// The `(name, path)` entries of a catalog whose paths are `paths`.
pub open spec fn catalog_pairs(home: Seq<char>, paths: Seq<Seq<char>>) -> Seq<(Seq<char>, Seq<char>)> {
    paths.map_values(|p: Seq<char>| (theme_name_spec(expand_home_spec(home, p)), p))
}

/// The catalog entries that the text of a catalog file gives.
pub open spec fn catalog_entries_spec(contents: Seq<char>, home: Seq<char>) -> Seq<(Seq<char>, Seq<char>)> {
    match toml_parse(contents) {
        None => seq![],
        Some(v) => catalog_pairs(home, catalog_paths_spec(v)),
    }
}

fn lookup<'a>(t: &'a Vec<(String, TomlValue)>, key: &str) -> (r: Option<&'a TomlValue>)
    ensures
        match r {
            Some(x) => table_get(t@, key@) == Some(*x),
            None => table_get(t@, key@) is None,
        },
{
    let mut i: usize = 0;
    assert(t@.skip(0) =~= t@);
    while i < t.len()
        invariant
            i <= t.len(),
            table_get(t@, key@) == table_get(t@.skip(i as int), key@),
        decreases t.len() - i,
    {
        let k = chars_of(t[i].0.as_str());
        if eq_str(&k, key) {
            return Some(&t[i].1);
        }
        assert(t@.skip(i as int).skip(1) =~= t@.skip(i as int + 1));
        i = i + 1;
    }
    None
}

/// The theme paths that a parsed catalog lists.
pub fn catalog_paths(v: &TomlValue) -> (r: Vec<String>)
    ensures
        strs_view(r) == catalog_paths_spec(*v),
{
    let mut out: Vec<String> = Vec::new();
    if let TomlValue::Table(t) = v {
        if let Some(TomlValue::Array(a)) = lookup(t, "themes") {
            let mut i: usize = 0;
            while i < a.len()
                invariant
                    i <= a.len(),
                    strs_view(out) == str_items(a@.take(i as int)),
                decreases a.len() - i,
            {
                assert(a@.take(i as int + 1).drop_last() =~= a@.take(i as int));
                if let TomlValue::Str(s) = &a[i] {
                    out.push(s.clone());
                    assert(strs_view(out) =~= str_items(a@.take(i as int)).push(s@));
                }
                i = i + 1;
            }
            assert(a@.take(a.len() as int) =~= a@);
        }
    }
    out
}

/// The themes a catalog file lists, as `(name, path)`: `contents` is the
/// file's text and `home` the home directory (empty when none is known).
/// Each path is listed as written; its name comes from the path with a
/// leading `~/` expanded. Text that is not valid TOML lists nothing.
pub fn catalog_entries(contents: &str, home: &str) -> (r: Vec<(String, String)>)
    ensures
        pairs_view(r@) == catalog_entries_spec(contents@, home@),
{
    let mut out: Vec<(String, String)> = Vec::new();
    let parsed = parse_toml_value(contents);
    match &parsed {
        None => {
            assert(pairs_view(out@) =~= seq![]);
        },
        Some(v) => {
            let paths = catalog_paths(v);
            let ghost want = catalog_paths_spec(*v);
            let mut i: usize = 0;
            while i < paths.len()
                invariant
                    i <= paths.len(),
                    strs_view(paths) == want,
                    out@.len() == i,
                    pairs_view(out@) == catalog_pairs(home@, want.take(i as int)),
                decreases paths.len() - i,
            {
                let p = &paths[i];
                let expanded = expand_home(home, p.as_str());
                let name = theme_name(expanded.as_str());
                let ghost before = out@;
                out.push((name, p.clone()));
                assert(want[i as int] == p@);
                assert(out@ == before.push(out@[i as int]));
                assert(pair_view(out@[i as int]) == (theme_name_spec(expand_home_spec(home@, want[i as int])), want[i as int]));
                assert(want.take(i as int + 1) =~= want.take(i as int).push(want[i as int]));
                assert forall|j: int| 0 <= j < i implies pairs_view(out@)[j] == catalog_pairs(home@, want.take(i as int + 1))[j] by {
                    assert(out@[j] == before[j]);
                    assert(pairs_view(before)[j] == catalog_pairs(home@, want.take(i as int))[j]);
                    assert(want.take(i as int + 1)[j] == want.take(i as int)[j]);
                }
                assert(pairs_view(out@) =~= catalog_pairs(home@, want.take(i as int + 1)));
                i = i + 1;
            }
            assert(want.take(paths.len() as int) =~= want);
        },
    }
    out
}

} // verus!
