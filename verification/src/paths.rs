use vstd::prelude::*;

use crate::text::{append_vec, chars_of, eq_str, find, lemma_find, occurs_at, slice_vec, string_of};
use crate::text_split::{split, split_vec};

verus! {

// Paths are handled as text with `/` as the separator, following what std
// documents for `Path` on Unix.

/// `base.join(name)` for `PathBuf`: an absolute `name` replaces `base`;
/// otherwise `name` is appended after a separator, unless `base` is empty or
/// already ends with one.
pub open spec fn path_join(base: Seq<char>, name: Seq<char>) -> Seq<char> {
    if name.len() > 0 && name[0] == '/' {
        name
    } else if base.len() == 0 || base.last() == '/' {
        base + name
    } else {
        base + seq!['/'] + name
    }
}

pub fn copy_vec(v: &Vec<char>) -> (r: Vec<char>)
    ensures
        r@ == v@,
{
    let r = slice_vec(v, 0, v.len());
    assert(r@ =~= v@);
    r
}

pub fn path_join_vec(base: &Vec<char>, name: &Vec<char>) -> (r: Vec<char>)
    ensures
        r@ == path_join(base@, name@),
{
    if name.len() > 0 && name[0] == '/' {
        return copy_vec(name);
    }
    let mut out = copy_vec(base);
    if !(base.len() == 0 || base[base.len() - 1] == '/') {
        out.push('/');
    }
    append_vec(&mut out, name);
    out
}

/// `PathBuf::join` on text paths.
pub fn path_join_str(base: &str, name: &str) -> (r: String)
    ensures
        r@ == path_join(base@, name@),
{
    string_of(&path_join_vec(&chars_of(base), &chars_of(name)))
}

/// A piece between separators that names something: neither empty (from a
/// repeated or trailing separator) nor `.`.
pub open spec fn is_named_part(p: Seq<char>) -> bool {
    p.len() > 0 && p != "."@
}

/// The index of the last piece of `parts` before `end` that names something.
pub open spec fn last_named(parts: Seq<Seq<char>>, end: int) -> Option<int>
    decreases end,
{
    if end <= 0 {
        None
    } else if is_named_part(parts[end - 1]) {
        Some(end - 1)
    } else {
        last_named(parts, end - 1)
    }
}

/// `Path::file_name`: the final component when it is a normal one; `None`
/// for a path that is empty, `/`, `.`, or ends in `..`.
pub open spec fn file_name(p: Seq<char>) -> Option<Seq<char>> {
    let parts = split(p, seq!['/']);
    match last_named(parts, parts.len() as int) {
        Some(i) => if parts[i] == ".."@ {
            None
        } else {
            Some(parts[i])
        },
        None => None,
    }
}

pub fn file_name_vec(p: &Vec<char>) -> (r: Option<Vec<char>>)
    ensures
        r matches Some(v) ==> file_name(p@) == Some(v@),
        r is None ==> file_name(p@) is None,
{
    let mut sep: Vec<char> = Vec::new();
    sep.push('/');
    assert(sep@ =~= seq!['/']);
    let parts = split_vec(p, &sep);
    let ghost ps = parts@.map_values(|v: Vec<char>| v@);
    let mut end = parts.len();
    while end > 0 && !(parts[end - 1].len() > 0 && !eq_str(&parts[end - 1], "."))
        invariant
            end <= parts.len(),
            ps == parts@.map_values(|v: Vec<char>| v@),
            last_named(ps, parts.len() as int) == last_named(ps, end as int),
        decreases end,
    {
        end -= 1;
    }
    if end == 0 {
        return None;
    }
    if eq_str(&parts[end - 1], "..") {
        return None;
    }
    Some(copy_vec(&parts[end - 1]))
}

/// The index of the last `c` in `s`.
pub open spec fn last_index_of(s: Seq<char>, c: char, end: int) -> Option<int>
    decreases end,
{
    if end <= 0 {
        None
    } else if s[end - 1] == c {
        Some(end - 1)
    } else {
        last_index_of(s, c, end - 1)
    }
}

/// `Path::file_stem`: the file name without its extension; a name with no
/// dot, or whose only dot is its first character, is kept whole.
pub open spec fn file_stem(p: Seq<char>) -> Option<Seq<char>> {
    match file_name(p) {
        None => None,
        Some(name) => match last_index_of(name, '.', name.len() as int) {
            Some(d) => if d == 0 {
                Some(name)
            } else {
                Some(name.take(d))
            },
            None => Some(name),
        },
    }
}

pub fn file_stem_vec(p: &Vec<char>) -> (r: Option<Vec<char>>)
    ensures
        r matches Some(v) ==> file_stem(p@) == Some(v@),
        r is None ==> file_stem(p@) is None,
{
    let name = match file_name_vec(p) {
        None => return None,
        Some(n) => n,
    };
    let mut end = name.len();
    while end > 0 && name[end - 1] != '.'
        invariant
            end <= name.len(),
            last_index_of(name@, '.', name.len() as int) == last_index_of(name@, '.', end as int),
        decreases end,
    {
        end -= 1;
    }
    if end <= 1 {
        return Some(name);
    }
    Some(slice_vec(&name, 0, end - 1))
}

/// The name of the scratch file an edit goes through: `tome_` and the given
/// name with each `/` turned into `_`.
pub open spec fn edit_file_name_spec(filename: Seq<char>) -> Seq<char> {
    "tome_"@ + crate::text::replace_char(filename, '/', seq!['_'])
}

pub fn edit_file_name(filename: &str) -> (r: String)
    ensures
        r@ == edit_file_name_spec(filename@),
{
    let mut under: Vec<char> = Vec::new();
    under.push('_');
    assert(under@ =~= seq!['_']);
    let safe = crate::text::replace_char_vec(&crate::text::chars_of(filename), '/', &under);
    string_of(&crate::text::concat_vec(&crate::text::lit("tome_"), &safe))
}

// ---------------------------------------------------------------------------
// Splitting joined paths
// ---------------------------------------------------------------------------

proof fn lemma_occurs_char(s: Seq<char>, c: char, k: int)
    ensures
        occurs_at(s, seq![c], k) <==> (0 <= k < s.len() && s[k] == c),
{
    if 0 <= k < s.len() {
        if s[k] == c {
            assert(s.subrange(k, k + 1) =~= seq![c]);
        } else {
            assert(s.subrange(k, k + 1)[0] == s[k]);
        }
    }
}

/// Where the first `c` of `s` is, as `find` reports it.
proof fn lemma_find_char(s: Seq<char>, c: char)
    ensures
        find(s, seq![c]) matches Some(k) ==> 0 <= k < s.len() && s[k] == c && forall|j: int|
            0 <= j < k ==> s[j] != c,
        find(s, seq![c]) is None ==> forall|j: int| 0 <= j < s.len() ==> s[j] != c,
{
    lemma_find(s, seq![c]);
    if let Some(k) = find(s, seq![c]) {
        lemma_occurs_char(s, c, k);
        assert forall|j: int| 0 <= j < k implies s[j] != c by {
            lemma_occurs_char(s, c, j);
        }
    } else {
        assert forall|j: int| 0 <= j < s.len() implies s[j] != c by {
            lemma_occurs_char(s, c, j);
        }
    }
}

proof fn lemma_find_concat(a: Seq<char>, b: Seq<char>, c: char)
    ensures
        find(a + seq![c] + b, seq![c]) == match find(a, seq![c]) {
            Some(k) => Some(k),
            None => Some(a.len() as int),
        },
{
    let t = a + seq![c] + b;
    lemma_find_char(a, c);
    lemma_find_char(t, c);
    let first = match find(a, seq![c]) {
        Some(k) => k,
        None => a.len() as int,
    };
    assert(t[first] == c);
    assert forall|j: int| 0 <= j < first implies t[j] != c by {
        assert(t[j] == a[j]);
    }
    if let Some(k2) = find(t, seq![c]) {
        if k2 < first {
            assert(t[k2] != c);
        }
        if k2 > first {
            assert(t[first] != c);
        }
    }
}

/// Splitting at `c` a text joined with `c` gives the pieces of each side.
pub proof fn lemma_split_concat(a: Seq<char>, b: Seq<char>, c: char)
    ensures
        split(a + seq![c] + b, seq![c]) == split(a, seq![c]) + split(b, seq![c]),
    decreases a.len(),
{
    let t = a + seq![c] + b;
    lemma_find_concat(a, b, c);
    lemma_find_char(a, c);
    match find(a, seq![c]) {
        Some(k) => {
            let rest = a.skip(k + 1);
            assert(t.skip(k + 1) =~= rest + seq![c] + b);
            assert(t.take(k) =~= a.take(k));
            lemma_split_concat(rest, b, c);
        },
        None => {
            assert(t.take(a.len() as int) =~= a);
            assert(t.skip(a.len() as int + 1) =~= b);
        },
    }
}

/// No piece of a split holds the separator.
pub proof fn lemma_split_pieces(s: Seq<char>, c: char)
    ensures
        forall|i: int, j: int|
            0 <= i < split(s, seq![c]).len() && 0 <= j < split(s, seq![c])[i].len() ==> #[trigger] split(
                s,
                seq![c],
            )[i][j] != c,
    decreases s.len(),
{
    lemma_find_char(s, c);
    if let Some(k) = find(s, seq![c]) {
        lemma_split_pieces(s.skip(k + 1), c);
        let rest = split(s.skip(k + 1), seq![c]);
        assert forall|i: int, j: int|
            0 <= i < split(s, seq![c]).len() && 0 <= j < split(s, seq![c])[i].len() implies #[trigger] split(
                s,
                seq![c],
            )[i][j] != c by {
            if i == 0 {
                assert(split(s, seq![c])[0] == s.take(k));
            } else {
                assert(split(s, seq![c])[i] == rest[i - 1]);
            }
        }
    }
}

} // verus!
