use vstd::prelude::*;

use crate::text::{
    append_vec, chars_of, find, find_from, is_whitespace, is_ws, lemma_find, lemma_trim_start_skip,
    slice_vec, string_of, trim_start,
};

verus! {

/// `str::split` by a non-empty pattern: the pieces between the
/// non-overlapping occurrences of `p`, found left to right.
pub open spec fn split(s: Seq<char>, p: Seq<char>) -> Seq<Seq<char>>
    decreases s.len(),
{
    if p.len() == 0 {
        seq![s]
    } else {
        match find(s, p) {
            None => seq![s],
            Some(k) => if 0 <= k && k + p.len() <= s.len() {
                seq![s.take(k)] + split(s.skip(k + p.len()), p)
            } else {
                seq![s]
            },
        }
    }
}

/// `str::splitn(n, p)`: at most `n` pieces, the last holding the rest.
pub open spec fn splitn(s: Seq<char>, p: Seq<char>, n: nat) -> Seq<Seq<char>>
    decreases n,
{
    if n == 0 {
        seq![]
    } else if n == 1 || p.len() == 0 {
        seq![s]
    } else {
        match find(s, p) {
            None => seq![s],
            Some(k) => if 0 <= k && k + p.len() <= s.len() {
                seq![s.take(k)] + splitn(s.skip(k + p.len()), p, (n - 1) as nat)
            } else {
                seq![s]
            },
        }
    }
}

pub proof fn lemma_find_bounds(s: Seq<char>, p: Seq<char>)
    ensures
        find(s, p) matches Some(k) ==> 0 <= k && k + p.len() <= s.len(),
{
    lemma_find(s, p);
}

/// Splits `s` by the non-empty pattern `p`.
pub fn split_vec(s: &Vec<char>, p: &Vec<char>) -> (r: Vec<Vec<char>>)
    requires
        p.len() > 0,
    ensures
        r@.map_values(|v: Vec<char>| v@) == split(s@, p@),
{
    let mut out: Vec<Vec<char>> = Vec::new();
    let mut start: usize = 0;
    assert(s@.skip(0) =~= s@);
    assert(out@.map_values(|v: Vec<char>| v@) =~= Seq::<Seq<char>>::empty());
    loop
        invariant
            p.len() > 0,
            start <= s.len(),
            split(s@, p@) == out@.map_values(|v: Vec<char>| v@) + split(s@.skip(start as int), p@),
        decreases s.len() - start,
    {
        let ghost rest = s@.skip(start as int);
        proof {
            lemma_find_bounds(rest, p@);
        }
        match find_from(s, p, start) {
            None => {
                let last = slice_vec(s, start, s.len());
                assert(last@ =~= rest);
                out.push(last);
                assert(out@.map_values(|v: Vec<char>| v@) =~= split(s@, p@));
                return out;
            },
            Some(k) => {
                let piece = slice_vec(s, start, k);
                assert(piece@ =~= rest.take(k - start));
                assert(rest.skip(k - start + p@.len()) =~= s@.skip(k + p@.len()));
                out.push(piece);
                assert(out@.map_values(|v: Vec<char>| v@) + split(s@.skip((k + p.len()) as int), p@)
                    =~= split(s@, p@));
                start = k + p.len();
            },
        }
    }
}

/// Splits `s` by the non-empty pattern `p` into at most `n` pieces.
pub fn splitn_vec(s: &Vec<char>, p: &Vec<char>, n: usize) -> (r: Vec<Vec<char>>)
    requires
        p.len() > 0,
        n >= 1,
    ensures
        r@.map_values(|v: Vec<char>| v@) == splitn(s@, p@, n as nat),
{
    let mut out: Vec<Vec<char>> = Vec::new();
    let mut start: usize = 0;
    let mut left: usize = n;
    assert(s@.skip(0) =~= s@);
    assert(out@.map_values(|v: Vec<char>| v@) =~= Seq::<Seq<char>>::empty());
    loop
        invariant
            p.len() > 0,
            start <= s.len(),
            left >= 1,
            splitn(s@, p@, n as nat) == out@.map_values(|v: Vec<char>| v@) + splitn(
                s@.skip(start as int),
                p@,
                left as nat,
            ),
        decreases left,
    {
        let ghost rest = s@.skip(start as int);
        proof {
            lemma_find_bounds(rest, p@);
        }
        if left == 1 {
            let last = slice_vec(s, start, s.len());
            assert(last@ =~= rest);
            out.push(last);
            assert(out@.map_values(|v: Vec<char>| v@) =~= splitn(s@, p@, n as nat));
            return out;
        }
        match find_from(s, p, start) {
            None => {
                let last = slice_vec(s, start, s.len());
                assert(last@ =~= rest);
                out.push(last);
                assert(out@.map_values(|v: Vec<char>| v@) =~= splitn(s@, p@, n as nat));
                return out;
            },
            Some(k) => {
                let piece = slice_vec(s, start, k);
                assert(piece@ =~= rest.take(k - start));
                assert(rest.skip(k - start + p@.len()) =~= s@.skip(k + p@.len()));
                out.push(piece);
                assert(out@.map_values(|v: Vec<char>| v@) + splitn(
                    s@.skip((k + p.len()) as int),
                    p@,
                    (left - 1) as nat,
                ) =~= splitn(s@, p@, n as nat));
                start = k + p.len();
                left = left - 1;
            },
        }
    }
}

/// `parts` joined with `sep` between consecutive parts (`slice::join`).
pub open spec fn join(parts: Seq<Seq<char>>, sep: Seq<char>) -> Seq<char>
    decreases parts.len(),
{
    if parts.len() == 0 {
        seq![]
    } else if parts.len() == 1 {
        parts[0]
    } else {
        join(parts.drop_last(), sep) + sep + parts.last()
    }
}

pub fn join_vec(parts: &Vec<Vec<char>>, sep: &Vec<char>) -> (r: Vec<char>)
    ensures
        r@ == join(parts@.map_values(|v: Vec<char>| v@), sep@),
{
    let ghost ps = parts@.map_values(|v: Vec<char>| v@);
    let mut out: Vec<char> = Vec::new();
    let mut i: usize = 0;
    while i < parts.len()
        invariant
            i <= parts.len(),
            ps == parts@.map_values(|v: Vec<char>| v@),
            out@ == join(ps.take(i as int), sep@),
        decreases parts.len() - i,
    {
        assert(ps.take(i + 1).drop_last() =~= ps.take(i as int));
        if i > 0 {
            append_vec(&mut out, sep);
        }
        append_vec(&mut out, &parts[i]);
        i += 1;
        proof {
            if i == 1 {
                assert(out@ =~= ps.take(1)[0]);
            }
        }
    }
    assert(ps.take(parts.len() as int) =~= ps);
    out
}

/// Joins `String`s with a separator (`[String]::join`).
pub fn join_strings(parts: &Vec<String>, sep: &str) -> (r: String)
    ensures
        r@ == join(parts@.map_values(|v: String| v@), sep@),
{
    let vs = strings_to_vecs(parts);
    let sepv = chars_of(sep);
    string_of(&join_vec(&vs, &sepv))
}

/// The characters of each string.
pub fn strings_to_vecs(parts: &Vec<String>) -> (r: Vec<Vec<char>>)
    ensures
        r@.map_values(|v: Vec<char>| v@) == parts@.map_values(|v: String| v@),
{
    let mut vs: Vec<Vec<char>> = Vec::new();
    let mut i: usize = 0;
    while i < parts.len()
        invariant
            i <= parts.len(),
            vs.len() == i,
            forall|j: int| 0 <= j < i ==> (#[trigger] vs@[j])@ == parts@[j]@,
        decreases parts.len() - i,
    {
        let c = chars_of(parts[i].as_str());
        vs.push(c);
        i += 1;
    }
    assert(vs@.map_values(|v: Vec<char>| v@) =~= parts@.map_values(|v: String| v@));
    vs
}

/// A `String` for each character vector.
pub fn vecs_to_strings(parts: &Vec<Vec<char>>) -> (r: Vec<String>)
    ensures
        r@.map_values(|v: String| v@) == parts@.map_values(|v: Vec<char>| v@),
{
    let mut vs: Vec<String> = Vec::new();
    let mut i: usize = 0;
    while i < parts.len()
        invariant
            i <= parts.len(),
            vs.len() == i,
            forall|j: int| 0 <= j < i ==> (#[trigger] vs@[j])@ == parts@[j]@,
        decreases parts.len() - i,
    {
        let c = string_of(&parts[i]);
        vs.push(c);
        i += 1;
    }
    assert(vs@.map_values(|v: String| v@) =~= parts@.map_values(|v: Vec<char>| v@));
    vs
}

/// The length of the leading run of non-whitespace characters of `s`.
pub open spec fn word_len(s: Seq<char>) -> nat
    decreases s.len(),
{
    if s.len() > 0 && !is_ws(s[0]) {
        1 + word_len(s.drop_first())
    } else {
        0
    }
}

/// The maximal runs of non-whitespace characters of `s`, in order
/// (`str::split_whitespace`).
pub open spec fn words(s: Seq<char>) -> Seq<Seq<char>>
    decreases s.len(),
{
    let t = trim_start(s);
    let n = word_len(t);
    if t.len() == 0 {
        seq![]
    } else if 0 < n <= t.len() <= s.len() {
        seq![t.take(n as int)] + words(t.skip(n as int))
    } else {
        seq![]
    }
}

/// The words of `s` joined by single spaces.
pub open spec fn collapse_ws(s: Seq<char>) -> Seq<char> {
    join(words(s), seq![' '])
}

proof fn lemma_trim_start_len(s: Seq<char>)
    ensures
        trim_start(s).len() <= s.len(),
    decreases s.len(),
{
    if s.len() > 0 && is_ws(s[0]) {
        lemma_trim_start_len(s.drop_first());
    }
}

proof fn lemma_word_len(s: Seq<char>, m: int)
    requires
        0 <= m <= s.len(),
        forall|k: int| 0 <= k < m ==> !is_ws(#[trigger] s[k]),
        m == s.len() || is_ws(s[m]),
    ensures
        word_len(s) == m,
    decreases m,
{
    if m > 0 {
        assert forall|k: int| 0 <= k < m - 1 implies !is_ws(#[trigger] s.drop_first()[k]) by {
            assert(s.drop_first()[k] == s[k + 1]);
        }
        if m < s.len() {
            assert(s.drop_first()[m - 1] == s[m]);
        }
        lemma_word_len(s.drop_first(), m - 1);
    }
}

/// The words of `s` (`str::split_whitespace`).
pub fn words_vec(s: &Vec<char>) -> (r: Vec<Vec<char>>)
    ensures
        r@.map_values(|v: Vec<char>| v@) == words(s@),
{
    let mut out: Vec<Vec<char>> = Vec::new();
    let mut i: usize = 0;
    assert(s@.skip(0) =~= s@);
    assert(out@.map_values(|v: Vec<char>| v@) =~= Seq::<Seq<char>>::empty());
    loop
        invariant
            i <= s.len(),
            words(s@) == out@.map_values(|v: Vec<char>| v@) + words(s@.skip(i as int)),
        decreases s.len() - i,
    {
        let mut a = i;
        while a < s.len() && is_whitespace(s[a])
            invariant
                i <= a <= s.len(),
                forall|k: int| i <= k < a ==> is_ws(#[trigger] s@[k]),
            decreases s.len() - a,
        {
            a += 1;
        }
        let ghost rest = s@.skip(i as int);
        proof {
            assert forall|k: int| 0 <= k < a - i implies is_ws(#[trigger] rest[k]) by {
                assert(rest[k] == s@[k + i]);
            }
            lemma_trim_start_skip(rest, a - i);
            assert(rest.skip(a - i) =~= s@.skip(a as int));
        }
        if a == s.len() {
            proof {
                assert(trim_start(rest).len() == 0);
                assert(words(rest) =~= Seq::<Seq<char>>::empty());
            }
            assert(out@.map_values(|v: Vec<char>| v@) =~= words(s@));
            return out;
        }
        let mut b = a;
        while b < s.len() && !is_whitespace(s[b])
            invariant
                a <= b <= s.len(),
                forall|k: int| a <= k < b ==> !is_ws(#[trigger] s@[k]),
            decreases s.len() - b,
        {
            b += 1;
        }
        proof {
            let t = s@.skip(a as int);
            assert(trim_start(t) == t);
            assert(trim_start(rest) == t);
            assert forall|k: int| 0 <= k < b - a implies !is_ws(#[trigger] t[k]) by {
                assert(t[k] == s@[k + a]);
            }
            if b < s.len() {
                assert(t[b - a] == s@[b as int]);
            }
            lemma_word_len(t, b - a);
            lemma_trim_start_len(rest);
            assert(t.take(b - a) =~= s@.subrange(a as int, b as int));
            assert(t.skip(b - a) =~= s@.skip(b as int));
            assert(words(rest) == seq![s@.subrange(a as int, b as int)] + words(s@.skip(b as int)));
        }
        let w = slice_vec(s, a, b);
        out.push(w);
        assert(out@.map_values(|v: Vec<char>| v@) + words(s@.skip(b as int)) =~= words(s@));
        i = b;
    }
}

/// `s.split_whitespace().collect::<Vec<_>>().join(" ")`.
pub fn collapse_ws_vec(s: &Vec<char>) -> (r: Vec<char>)
    ensures
        r@ == collapse_ws(s@),
{
    let ws = words_vec(s);
    let mut sep: Vec<char> = Vec::new();
    sep.push(' ');
    assert(sep@ =~= seq![' ']);
    join_vec(&ws, &sep)
}

/// `s` without one trailing carriage return.
pub open spec fn strip_cr(l: Seq<char>) -> Seq<char> {
    if l.len() > 0 && l.last() == '\r' {
        l.drop_last()
    } else {
        l
    }
}

/// `str::lines`: the pieces between line feeds, a final line feed ending
/// the last line rather than starting an empty one, and a carriage return
/// removed from the end of each line that a line feed ends.
pub open spec fn lines(s: Seq<char>) -> Seq<Seq<char>> {
    let parts = split(s, seq!['\n']);
    let n = parts.len();
    let k = if s.len() == 0 || s.last() == '\n' {
        (n - 1) as nat
    } else {
        n
    };
    Seq::new(k, |i: int| if i < n - 1 { strip_cr(parts[i]) } else { parts[i] })
}

pub proof fn lemma_split_nonempty(s: Seq<char>, p: Seq<char>)
    ensures
        split(s, p).len() >= 1,
    decreases s.len(),
{
    if p.len() > 0 {
        if let Some(k) = find(s, p) {
            if 0 <= k && k + p.len() <= s.len() {
                lemma_split_nonempty(s.skip(k + p.len()), p);
            }
        }
    }
}

pub fn strip_cr_vec(l: &Vec<char>) -> (r: Vec<char>)
    ensures
        r@ == strip_cr(l@),
{
    if l.len() > 0 && l[l.len() - 1] == '\r' {
        slice_vec(l, 0, l.len() - 1)
    } else {
        assert(l@.subrange(0, l@.len() as int) =~= l@);
        slice_vec(l, 0, l.len())
    }
}

/// The lines of `s` (`str::lines`).
pub fn lines_vec(s: &Vec<char>) -> (r: Vec<Vec<char>>)
    ensures
        r@.map_values(|v: Vec<char>| v@) == lines(s@),
{
    let mut nl: Vec<char> = Vec::new();
    nl.push('\n');
    assert(nl@ =~= seq!['\n']);
    let parts = split_vec(s, &nl);
    let ghost ps = parts@.map_values(|v: Vec<char>| v@);
    proof {
        lemma_split_nonempty(s@, seq!['\n']);
    }
    let n = parts.len();
    let k = if s.len() == 0 || s[s.len() - 1] == '\n' {
        n - 1
    } else {
        n
    };
    let mut out: Vec<Vec<char>> = Vec::new();
    let mut i: usize = 0;
    while i < k
        invariant
            i <= k <= n,
            n == parts.len(),
            n >= 1,
            ps == parts@.map_values(|v: Vec<char>| v@),
            ps == split(s@, seq!['\n']),
            out.len() == i,
            forall|j: int| 0 <= j < i ==> (#[trigger] out@[j])@ == (if j < n - 1 {
                strip_cr(ps[j])
            } else {
                ps[j]
            }),
        decreases k - i,
    {
        if i < n - 1 {
            out.push(strip_cr_vec(&parts[i]));
        } else {
            out.push(slice_vec(&parts[i], 0, parts[i].len()));
            assert(parts[i as int]@.subrange(0, parts[i as int]@.len() as int) =~= parts[i as int]@);
        }
        i += 1;
    }
    assert(out@.map_values(|v: Vec<char>| v@) =~= lines(s@));
    out
}

} // verus!
