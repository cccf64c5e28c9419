use vstd::prelude::*;

use crate::text::{lemma_less_irreflexive, lemma_less_transitive, less_vec, seq_less};

verus! {

/// What a list is ordered by: a text (by code point, as `Ord for str`), a
/// number, or a pair of texts (the first, then the second).
pub enum SortKey {
    Text(Vec<char>),
    Number(u64),
    Pair(Vec<char>, Vec<char>),
}

pub enum KeyView {
    Text(Seq<char>),
    Number(nat),
    Pair(Seq<char>, Seq<char>),
}

impl View for SortKey {
    type V = KeyView;

    open spec fn view(&self) -> KeyView {
        match self {
            SortKey::Text(t) => KeyView::Text(t@),
            SortKey::Number(n) => KeyView::Number(*n as nat),
            SortKey::Pair(a, b) => KeyView::Pair(a@, b@),
        }
    }
}

/// The strict order on keys of the same kind.
pub open spec fn key_less(a: KeyView, b: KeyView) -> bool {
    match (a, b) {
        (KeyView::Text(x), KeyView::Text(y)) => seq_less(x, y),
        (KeyView::Number(x), KeyView::Number(y)) => x < y,
        (KeyView::Pair(a1, a2), KeyView::Pair(b1, b2)) => seq_less(a1, b1) || (a1 == b1
            && seq_less(a2, b2)),
        _ => false,
    }
}

pub fn key_less_exec(a: &SortKey, b: &SortKey) -> (r: bool)
    ensures
        r == key_less(a@, b@),
{
    match (a, b) {
        (SortKey::Text(x), SortKey::Text(y)) => less_vec(x, y),
        (SortKey::Number(x), SortKey::Number(y)) => *x < *y,
        (SortKey::Pair(a1, a2), SortKey::Pair(b1, b2)) => {
            if less_vec(a1, b1) {
                true
            } else if less_vec(b1, a1) {
                false
            } else {
                proof {
                    crate::text::lemma_less_total(a1@, b1@);
                }
                less_vec(a2, b2)
            }
        },
        _ => false,
    }
}

pub open spec fn keys_view(keys: Seq<SortKey>) -> Seq<KeyView> {
    keys.map_values(|k: SortKey| k@)
}

/// Whether item `x` must come before item `y`: its key is strictly smaller
/// (strictly larger when `desc`).
pub open spec fn precedes(keys: Seq<KeyView>, desc: bool, x: usize, y: usize) -> bool {
    if desc {
        key_less(keys[y as int], keys[x as int])
    } else {
        key_less(keys[x as int], keys[y as int])
    }
}

/// `x` inserted into `s` before the first item that it must precede, so
/// after every item it does not (an insertion that keeps ties in order).
pub open spec fn insert_by(keys: Seq<KeyView>, desc: bool, x: usize, s: Seq<usize>) -> Seq<
    usize,
>
    decreases s.len(),
{
    if s.len() == 0 {
        seq![x]
    } else if precedes(keys, desc, x, s[0]) {
        seq![x] + s
    } else {
        seq![s[0]] + insert_by(keys, desc, x, s.drop_first())
    }
}

/// The stable sort of the items `s` by their keys: insertion sort, each
/// item in turn placed after all earlier items that it does not precede.
/// This is the order `slice::sort_by` (a stable sort) gives.
pub open spec fn sort_by_keys(keys: Seq<KeyView>, desc: bool, s: Seq<usize>) -> Seq<usize>
    decreases s.len(),
{
    if s.len() == 0 {
        seq![]
    } else {
        insert_by(keys, desc, s.last(), sort_by_keys(keys, desc, s.drop_last()))
    }
}

proof fn lemma_insert_by_at(keys: Seq<KeyView>, desc: bool, x: usize, s: Seq<usize>, p: int)
    requires
        0 <= p <= s.len(),
        forall|j: int| 0 <= j < p ==> !precedes(keys, desc, x, #[trigger] s[j]),
        p == s.len() || precedes(keys, desc, x, s[p]),
    ensures
        insert_by(keys, desc, x, s) == s.take(p) + seq![x] + s.skip(p),
    decreases s.len(),
{
    if s.len() == 0 {
        assert(s.take(p) + seq![x] + s.skip(p) =~= seq![x]);
    } else if p == 0 {
        assert(s.take(p) + seq![x] + s.skip(p) =~= seq![x] + s);
    } else {
        assert forall|j: int| 0 <= j < p - 1 implies !precedes(
            keys,
            desc,
            x,
            #[trigger] s.drop_first()[j],
        ) by {
            assert(s.drop_first()[j] == s[j + 1]);
        }
        if p < s.len() {
            assert(s.drop_first()[p - 1] == s[p]);
        }
        lemma_insert_by_at(keys, desc, x, s.drop_first(), p - 1);
        assert(seq![s[0]] + (s.drop_first().take(p - 1) + seq![x] + s.drop_first().skip(p - 1))
            =~= s.take(p) + seq![x] + s.skip(p));
    }
}

fn precedes_exec(keys: &Vec<SortKey>, desc: bool, x: usize, y: usize) -> (r: bool)
    requires
        x < keys.len(),
        y < keys.len(),
    ensures
        r == precedes(keys_view(keys@), desc, x, y),
{
    if desc {
        key_less_exec(&keys[y], &keys[x])
    } else {
        key_less_exec(&keys[x], &keys[y])
    }
}

/// The items sorted stably by their keys, ascending (descending when `desc`).
pub fn sort_indices(keys: &Vec<SortKey>, desc: bool, items: &Vec<usize>) -> (r: Vec<usize>)
    requires
        forall|i: int| 0 <= i < items.len() ==> #[trigger] items@[i] < keys.len(),
    ensures
        r@ == sort_by_keys(keys_view(keys@), desc, items@),
        r.len() == items.len(),
        forall|i: int| 0 <= i < r.len() ==> #[trigger] r@[i] < keys.len(),
{
    let ghost kv = keys_view(keys@);
    let mut out: Vec<usize> = Vec::new();
    let mut i: usize = 0;
    while i < items.len()
        invariant
            i <= items.len(),
            kv == keys_view(keys@),
            forall|k: int| 0 <= k < items.len() ==> #[trigger] items@[k] < keys.len(),
            out@ == sort_by_keys(kv, desc, items@.take(i as int)),
            out.len() == i,
            forall|k: int| 0 <= k < out.len() ==> #[trigger] out@[k] < keys.len(),
        decreases items.len() - i,
    {
        let x = items[i];
        let mut p: usize = 0;
        while p < out.len() && !precedes_exec(keys, desc, x, out[p])
            invariant
                p <= out.len(),
                x < keys.len(),
                kv == keys_view(keys@),
                forall|k: int| 0 <= k < out.len() ==> #[trigger] out@[k] < keys.len(),
                forall|j: int| 0 <= j < p ==> !precedes(kv, desc, x, #[trigger] out@[j]),
            decreases out.len() - p,
        {
            p += 1;
        }
        proof {
            lemma_insert_by_at(kv, desc, x, out@, p as int);
            assert(items@.take(i + 1).drop_last() =~= items@.take(i as int));
        }
        let ghost before = out@;
        out.insert(p, x);
        assert(out@ =~= before.take(p as int) + seq![x] + before.skip(p as int));
        i += 1;
    }
    assert(items@.take(items.len() as int) =~= items@);
    out
}

// ---------------------------------------------------------------------------
// What sorting guarantees
// ---------------------------------------------------------------------------

/// Whether no item of `s` must come before an item placed earlier.
pub open spec fn sorted_by(keys: Seq<KeyView>, desc: bool, s: Seq<usize>) -> bool {
    forall|i: int, j: int| 0 <= i < j < s.len() ==> !precedes(keys, desc, #[trigger] s[j], #[trigger] s[i])
}

pub proof fn lemma_key_less_irreflexive(a: KeyView)
    ensures
        !key_less(a, a),
{
    match a {
        KeyView::Text(x) => lemma_less_irreflexive(x),
        KeyView::Number(_) => {},
        KeyView::Pair(x, y) => {
            lemma_less_irreflexive(x);
            lemma_less_irreflexive(y);
        },
    }
}

pub proof fn lemma_key_less_transitive(a: KeyView, b: KeyView, c: KeyView)
    requires
        key_less(a, b),
        key_less(b, c),
    ensures
        key_less(a, c),
{
    match (a, b, c) {
        (KeyView::Text(x), KeyView::Text(y), KeyView::Text(z)) => lemma_less_transitive(x, y, z),
        (KeyView::Pair(a1, a2), KeyView::Pair(b1, b2), KeyView::Pair(c1, c2)) => {
            if seq_less(a1, b1) && seq_less(b1, c1) {
                lemma_less_transitive(a1, b1, c1);
            } else if seq_less(a1, b1) {
            } else if seq_less(b1, c1) {
            } else {
                lemma_less_transitive(a2, b2, c2);
            }
        },
        _ => {},
    }
}

proof fn lemma_precedes_order(keys: Seq<KeyView>, desc: bool, x: usize, y: usize, z: usize)
    ensures
        !precedes(keys, desc, x, x),
        precedes(keys, desc, x, y) && precedes(keys, desc, y, z) ==> precedes(keys, desc, x, z),
{
    lemma_key_less_irreflexive(keys[x as int]);
    if precedes(keys, desc, x, y) && precedes(keys, desc, y, z) {
        if desc {
            lemma_key_less_transitive(keys[z as int], keys[y as int], keys[x as int]);
        } else {
            lemma_key_less_transitive(keys[x as int], keys[y as int], keys[z as int]);
        }
    }
}

proof fn lemma_insert_by_multiset(keys: Seq<KeyView>, desc: bool, x: usize, t: Seq<usize>)
    ensures
        insert_by(keys, desc, x, t).to_multiset() == t.to_multiset().insert(x),
    decreases t.len(),
{
    broadcast use vstd::seq_lib::group_to_multiset_ensures;

    if t.len() == 0 {
        assert(seq![x] =~= t.insert(0, x));
    } else if precedes(keys, desc, x, t[0]) {
        assert(seq![x] + t =~= t.insert(0, x));
    } else {
        let r = insert_by(keys, desc, x, t.drop_first());
        lemma_insert_by_multiset(keys, desc, x, t.drop_first());
        assert(seq![t[0]] + r =~= r.insert(0, t[0]));
        assert(t =~= t.drop_first().insert(0, t[0]));
        assert(t.drop_first().to_multiset().insert(x).insert(t[0]) =~= t.drop_first().to_multiset().insert(
            t[0],
        ).insert(x));
    }
}

proof fn lemma_insert_by_sorted(keys: Seq<KeyView>, desc: bool, x: usize, t: Seq<usize>)
    requires
        sorted_by(keys, desc, t),
    ensures
        sorted_by(keys, desc, insert_by(keys, desc, x, t)),
    decreases t.len(),
{
    broadcast use vstd::seq_lib::group_to_multiset_ensures;

    let r = insert_by(keys, desc, x, t);
    if t.len() == 0 {
    } else if precedes(keys, desc, x, t[0]) {
        assert forall|i: int, j: int| 0 <= i < j < r.len() implies !precedes(
            keys,
            desc,
            #[trigger] r[j],
            #[trigger] r[i],
        ) by {
            if i == 0 {
                assert(r[j] == t[j - 1]);
                lemma_precedes_order(keys, desc, t[j - 1], x, t[0]);
                if j - 1 > 0 {
                    assert(!precedes(keys, desc, t[j - 1], t[0]));
                }
            } else {
                assert(r[j] == t[j - 1] && r[i] == t[i - 1]);
            }
        }
    } else {
        let rest = insert_by(keys, desc, x, t.drop_first());
        assert(sorted_by(keys, desc, t.drop_first())) by {
            assert forall|i: int, j: int| 0 <= i < j < t.drop_first().len() implies !precedes(
                keys,
                desc,
                #[trigger] t.drop_first()[j],
                #[trigger] t.drop_first()[i],
            ) by {
                assert(t.drop_first()[j] == t[j + 1] && t.drop_first()[i] == t[i + 1]);
            }
        }
        lemma_insert_by_sorted(keys, desc, x, t.drop_first());
        lemma_insert_by_multiset(keys, desc, x, t.drop_first());
        assert forall|i: int, j: int| 0 <= i < j < r.len() implies !precedes(
            keys,
            desc,
            #[trigger] r[j],
            #[trigger] r[i],
        ) by {
            if i == 0 {
                let y = r[j];
                assert(y == rest[j - 1]);
                assert(rest.contains(y));
                assert(rest.to_multiset().count(y) > 0);
                if y != x {
                    assert(t.drop_first().to_multiset().count(y) > 0);
                    assert(t.drop_first().contains(y));
                    let k = choose|k: int| 0 <= k < t.drop_first().len() && t.drop_first()[k] == y;
                    assert(t[k + 1] == y);
                }
            } else {
                assert(r[j] == rest[j - 1] && r[i] == rest[i - 1]);
            }
        }
    }
}

/// Sorting by keys leaves no item after one it must precede, and keeps
/// exactly the items it was given.
pub proof fn law_sort_by_keys(keys: Seq<KeyView>, desc: bool, s: Seq<usize>)
    ensures
        sorted_by(keys, desc, sort_by_keys(keys, desc, s)),
        sort_by_keys(keys, desc, s).to_multiset() == s.to_multiset(),
    decreases s.len(),
{
    broadcast use vstd::seq_lib::group_to_multiset_ensures;

    if s.len() > 0 {
        let prev = sort_by_keys(keys, desc, s.drop_last());
        law_sort_by_keys(keys, desc, s.drop_last());
        lemma_insert_by_sorted(keys, desc, s.last(), prev);
        lemma_insert_by_multiset(keys, desc, s.last(), prev);
        assert(s =~= s.drop_last().push(s.last()));
    } else {
        assert(s.to_multiset() =~= sort_by_keys(keys, desc, s).to_multiset());
    }
}

} // verus!
