use vstd::prelude::*;

use crate::model::{opt_view, strs_view};
use crate::text::{chars_of, contains, contains_vec, eq_str, lowercase_vec, str_lowercase};

verus! {

/// The order of the bookmark list while no search text is entered.
#[derive(Debug, Clone, Copy, PartialEq, Eq, Structural)]
pub enum SortMode {
    Added,
    Site,
    Title,
    Year,
}

impl SortMode {
    pub open spec fn next_spec(self) -> SortMode {
        match self {
            SortMode::Added => SortMode::Site,
            SortMode::Site => SortMode::Title,
            SortMode::Title => SortMode::Year,
            SortMode::Year => SortMode::Added,
        }
    }

    /// The next order in the cycle added, site, title, year.
    pub fn next(self) -> (r: SortMode)
        ensures
            r == self.next_spec(),
    {
        match self {
            SortMode::Added => SortMode::Site,
            SortMode::Site => SortMode::Title,
            SortMode::Title => SortMode::Year,
            SortMode::Year => SortMode::Added,
        }
    }

    pub open spec fn label_spec(self) -> Seq<char> {
        match self {
            SortMode::Added => "added"@,
            SortMode::Site => "site"@,
            SortMode::Title => "title"@,
            SortMode::Year => "year"@,
        }
    }

    /// The name shown for the order.
    pub fn label(self) -> (r: &'static str)
        ensures
            r@ == self.label_spec(),
    {
        match self {
            SortMode::Added => "added",
            SortMode::Site => "site",
            SortMode::Title => "title",
            SortMode::Year => "year",
        }
    }
}

/// Cycling the order four times returns to where it started.
pub proof fn law_sort_mode_cycle(m: SortMode)
    ensures
        m.next_spec().next_spec().next_spec().next_spec() == m,
        m.next_spec() != m,
{
}

/// How the list and the preview are placed.
#[derive(Debug, Clone, Copy, PartialEq, Eq, Structural)]
pub enum LayoutMode {
    Wide,
    Tall,
    Auto,
}

/// The placement chosen for a terminal size.
#[derive(Debug, Clone, Copy, PartialEq, Eq, Structural)]
pub enum ResolvedLayout {
    Wide,
    Tall,
}

impl LayoutMode {
    /// The `layout` setting: `wide`, `tall`, or anything else for automatic.
    pub fn from_config(s: Option<&str>) -> (r: LayoutMode)
        ensures
            r == match s {
                Some(v) => if v@ == "wide"@ {
                    LayoutMode::Wide
                } else if v@ == "tall"@ {
                    LayoutMode::Tall
                } else {
                    LayoutMode::Auto
                },
                None => LayoutMode::Auto,
            },
    {
        match s {
            Some(v) => {
                let c = chars_of(v);
                if eq_str(&c, "wide") {
                    LayoutMode::Wide
                } else if eq_str(&c, "tall") {
                    LayoutMode::Tall
                } else {
                    LayoutMode::Auto
                }
            },
            None => LayoutMode::Auto,
        }
    }

    /// Side by side when the terminal is at least twice as wide as it is
    /// tall (in cells), else one above the other, unless fixed by the mode.
    pub fn resolve(self, width: u16, height: u16) -> (r: ResolvedLayout)
        ensures
            r == match self {
                LayoutMode::Wide => ResolvedLayout::Wide,
                LayoutMode::Tall => ResolvedLayout::Tall,
                LayoutMode::Auto => if width as int >= height as int * 2 {
                    ResolvedLayout::Wide
                } else {
                    ResolvedLayout::Tall
                },
            },
    {
        match self {
            LayoutMode::Wide => ResolvedLayout::Wide,
            LayoutMode::Tall => ResolvedLayout::Tall,
            LayoutMode::Auto => {
                if width as u32 >= height as u32 * 2 {
                    ResolvedLayout::Wide
                } else {
                    ResolvedLayout::Tall
                }
            },
        }
    }
}

/// Whether the search bar takes text or the keys browse.
#[derive(Debug, Clone, Copy, PartialEq, Eq, Structural)]
pub enum InputMode {
    Browse,
    Search,
}

// ---------------------------------------------------------------------------
// The theme picker
// ---------------------------------------------------------------------------

/// The theme picker: the theme names and the selected one.
pub struct ThemePopup {
    pub names: Vec<String>,
    pub selected: usize,
}

impl ThemePopup {
    /// Every name is selectable: the selection is in range, or 0 for none.
    pub open spec fn wf(&self) -> bool {
        if self.names.len() == 0 {
            self.selected == 0
        } else {
            self.selected < self.names.len()
        }
    }

    /// A picker over the given names, the first selected.
    pub fn with_names(names: Vec<String>) -> (r: ThemePopup)
        ensures
            r.wf(),
            r.names@ == names@,
            r.selected == 0,
    {
        ThemePopup { names, selected: 0 }
    }

    pub fn move_up(&mut self)
        requires
            old(self).wf(),
        ensures
            final(self).wf(),
            final(self).names@ == old(self).names@,
            final(self).selected == if old(self).selected > 0 {
                old(self).selected - 1
            } else {
                0
            },
    {
        self.selected = if self.selected > 0 {
            self.selected - 1
        } else {
            0
        };
    }

    pub fn move_down(&mut self)
        requires
            old(self).wf(),
        ensures
            final(self).wf(),
            final(self).names@ == old(self).names@,
            final(self).selected == if old(self).names.len() == 0 {
                old(self).selected as int
            } else if old(self).selected + 1 < old(self).names.len() {
                old(self).selected + 1
            } else {
                old(self).names.len() - 1
            },
    {
        if self.names.len() > 0 {
            self.selected = if self.selected + 1 < self.names.len() {
                self.selected + 1
            } else {
                self.names.len() - 1
            };
        }
    }

    pub fn selected_name(&self) -> (r: Option<&String>)
        ensures
            r matches Some(n) ==> self.selected < self.names.len() && n == self.names@[self.selected as int],
            r is None ==> self.selected >= self.names.len(),
    {
        if self.selected < self.names.len() {
            Some(&self.names[self.selected])
        } else {
            None
        }
    }
}

// ---------------------------------------------------------------------------
// The tag picker
// ---------------------------------------------------------------------------

/// How often `tag` occurs in the tag lists.
pub open spec fn tag_count(lists: Seq<Seq<Seq<char>>>, tag: Seq<char>) -> nat
    decreases lists.len(),
{
    if lists.len() == 0 {
        0
    } else {
        tag_count(lists.drop_last(), tag) + lists.last().filter(|t: Seq<char>| t == tag).len()
    }
}

pub open spec fn lists_view(v: Seq<Vec<String>>) -> Seq<Seq<Seq<char>>> {
    v.map_values(|l: Vec<String>| strs_view(l))
}

/// The count a table of `(tag, count)` gives a tag: that of its first entry,
/// else 0.
pub open spec fn count_lookup(counts: Seq<(Seq<char>, nat)>, tag: Seq<char>) -> nat
    decreases counts.len(),
{
    if counts.len() == 0 {
        0
    } else if counts[0].0 == tag {
        counts[0].1
    } else {
        count_lookup(counts.drop_first(), tag)
    }
}

pub open spec fn counts_view(c: Seq<(String, usize)>) -> Seq<(Seq<char>, nat)> {
    c.map_values(|e: (String, usize)| (e.0@, e.1 as nat))
}

/// The entry shown first in the tag list, which clears the tag filter.
pub open spec fn all_label() -> Seq<char> {
    "(all)"@
}

/// The tags that the filter keeps: all when it is empty, else those whose
/// lowercase form contains the filter's lowercase form.
pub open spec fn filter_tags(tags: Seq<Seq<char>>, filter: Seq<char>) -> Seq<Seq<char>> {
    if filter.len() == 0 {
        tags
    } else {
        tags.filter(|t: Seq<char>| contains(str_lowercase(t), str_lowercase(filter)))
    }
}

/// The tag picker: what is typed to narrow it, the tags shown, how many
/// bookmarks carry each tag, the number of bookmarks, the selection, the
/// first row shown, and the tag filter in force when it opened.
pub struct TagPopup {
    pub filter: String,
    pub filtered_tags: Vec<String>,
    pub counts: Vec<(String, usize)>,
    pub total: usize,
    pub selected: usize,
    pub scroll: usize,
    pub prev_tag_filter: Option<String>,
}

impl TagPopup {
    pub open spec fn wf(&self) -> bool {
        if self.filtered_tags.len() == 0 {
            self.selected == 0
        } else {
            self.selected < self.filtered_tags.len()
        }
    }

    /// The tag picker over `all_tags` (sorted, each once) for bookmarks whose
    /// tag lists are `entry_tags`, with "(all)" first and selected.
    pub fn new(all_tags: &Vec<String>, entry_tags: &Vec<Vec<String>>, current_tag_filter: &Option<String>) -> (r: TagPopup)
        requires
            tag_total(lists_view(entry_tags@)) <= usize::MAX,
        ensures
            r.wf(),
            r.filter@ == Seq::<char>::empty(),
            strs_view(r.filtered_tags) == seq![all_label()] + strs_view(*all_tags),
            forall|t: Seq<char>| count_lookup(counts_view(r.counts@), t) == tag_count(lists_view(entry_tags@), t),
            r.total == entry_tags.len(),
            r.selected == 0,
            r.scroll == 0,
            opt_view(r.prev_tag_filter) == opt_view(*current_tag_filter),
    {
        let mut counts: Vec<(String, usize)> = Vec::new();
        let ghost lv = lists_view(entry_tags@);
        let mut i: usize = 0;
        assert(forall|t: Seq<char>| count_lookup(counts_view(counts@), t) == tag_count(lv.take(0), t));
        while i < entry_tags.len()
            invariant
                i <= entry_tags.len(),
                lv == lists_view(entry_tags@),
                tag_total(lv) <= usize::MAX,
                forall|t: Seq<char>| count_lookup(counts_view(counts@), t) == tag_count(lv.take(i as int), t),
                forall|k: int| 0 <= k < counts.len() ==> (#[trigger] counts@[k]).1 <= tag_total(lv.take(i as int)),
                counts_unique(counts_view(counts@)),
            decreases entry_tags.len() - i,
        {
            let list = &entry_tags[i];
            let mut j: usize = 0;
            let ghost base = lv.take(i as int);
            assert(lv.take(i + 1).drop_last() =~= base);
            assert(lv.take(i + 1).last() == strs_view(entry_tags@[i as int]));
            while j < list.len()
                invariant
                    j <= list.len(),
                    lv == lists_view(entry_tags@),
                    list == entry_tags@[i as int],
                    i < entry_tags.len(),
                    tag_total(lv) <= usize::MAX,
                    base == lv.take(i as int),
                    forall|t: Seq<char>| count_lookup(counts_view(counts@), t) == tag_count(base, t) + strs_view(*list).take(j as int).filter(|x: Seq<char>| x == t).len(),
                    forall|k: int| 0 <= k < counts.len() ==> (#[trigger] counts@[k]).1 <= tag_total(base) + j,
                    counts_unique(counts_view(counts@)),
                decreases list.len() - j,
            {
                proof {
                    lemma_tag_total_prefix(lv, i as int);
                    assert(tag_total(lv.take(i + 1)) == tag_total(base) + list.len());
                }
                add_count(&mut counts, &list[j], Ghost((tag_total(base) + j) as nat));
                proof {
                    let tv = strs_view(*list);
                    assert forall|t: Seq<char>| count_lookup(counts_view(counts@), t) == tag_count(base, t) + tv.take(j + 1).filter(|x: Seq<char>| x == t).len() by {
                        assert(tv.take(j + 1) =~= tv.take(j as int).push(tv[j as int]));
                        tv.take(j as int).lemma_filter_push(tv[j as int], |x: Seq<char>| x == t);
                    }
                }
                j += 1;
            }
            proof {
                let tv = strs_view(*list);
                assert(tv.take(list.len() as int) =~= tv);
                lemma_tag_total_prefix(lv, i as int);
            }
            i += 1;
        }
        assert(lv.take(entry_tags.len() as int) =~= lv);
        let mut tags: Vec<String> = Vec::new();
        tags.push("(all)".to_owned());
        let mut k: usize = 0;
        while k < all_tags.len()
            invariant
                k <= all_tags.len(),
                strs_view(tags) == seq![all_label()] + strs_view(*all_tags).take(k as int),
            decreases all_tags.len() - k,
        {
            let ghost before = strs_view(tags);
            tags.push(all_tags[k].clone());
            assert(strs_view(tags) =~= before.push(all_tags@[k as int]@));
            assert(strs_view(*all_tags).take(k + 1) =~= strs_view(*all_tags).take(k as int).push(all_tags@[k as int]@));
            k += 1;
        }
        assert(strs_view(*all_tags).take(all_tags.len() as int) =~= strs_view(*all_tags));
        TagPopup {
            filter: String::new(),
            filtered_tags: tags,
            counts,
            total: entry_tags.len(),
            selected: 0,
            scroll: 0,
            prev_tag_filter: crate::model::copy_opt(current_tag_filter),
        }
    }
}

/// The number of tags over all lists.
pub open spec fn tag_total(lists: Seq<Seq<Seq<char>>>) -> nat
    decreases lists.len(),
{
    if lists.len() == 0 {
        0
    } else {
        tag_total(lists.drop_last()) + lists.last().len()
    }
}

proof fn lemma_tag_total_prefix(lists: Seq<Seq<Seq<char>>>, i: int)
    requires
        0 <= i < lists.len(),
    ensures
        tag_total(lists.take(i + 1)) == tag_total(lists.take(i)) + lists[i].len(),
        tag_total(lists.take(i + 1)) <= tag_total(lists),
    decreases lists.len() - i,
{
    assert(lists.take(i + 1).drop_last() =~= lists.take(i));
    if i + 1 < lists.len() {
        lemma_tag_total_prefix(lists, i + 1);
    } else {
        assert(lists.take(i + 1) =~= lists);
    }
}

/// Each tag has at most one entry in the table.
pub open spec fn counts_unique(c: Seq<(Seq<char>, nat)>) -> bool {
    forall|a: int, b: int| 0 <= a < b < c.len() ==> c[a].0 != c[b].0
}

proof fn lemma_count_lookup_index(c: Seq<(Seq<char>, nat)>, k: int)
    requires
        counts_unique(c),
        0 <= k < c.len(),
    ensures
        count_lookup(c, c[k].0) == c[k].1,
    decreases k,
{
    if k > 0 {
        assert(counts_unique(c.drop_first())) by {
            assert forall|a: int, b: int| 0 <= a < b < c.drop_first().len() implies c.drop_first()[a].0 != c.drop_first()[b].0 by {
                assert(c.drop_first()[a] == c[a + 1]);
                assert(c.drop_first()[b] == c[b + 1]);
            }
        }
        assert(c[0].0 != c[k].0);
        lemma_count_lookup_index(c.drop_first(), k - 1);
    }
}

proof fn lemma_count_lookup_absent(c: Seq<(Seq<char>, nat)>, t: Seq<char>)
    requires
        forall|k: int| 0 <= k < c.len() ==> c[k].0 != t,
    ensures
        count_lookup(c, t) == 0,
    decreases c.len(),
{
    if c.len() > 0 {
        assert forall|k: int| 0 <= k < c.drop_first().len() implies c.drop_first()[k].0 != t by {
            assert(c.drop_first()[k] == c[k + 1]);
        }
        lemma_count_lookup_absent(c.drop_first(), t);
    }
}

proof fn lemma_count_lookup_update(c: Seq<(Seq<char>, nat)>, k: int, v: nat, t: Seq<char>)
    requires
        counts_unique(c),
        0 <= k < c.len(),
    ensures
        count_lookup(c.update(k, (c[k].0, v)), t) == if t == c[k].0 {
            v
        } else {
            count_lookup(c, t)
        },
    decreases k,
{
    let c2 = c.update(k, (c[k].0, v));
    if k == 0 {
        assert(c2.drop_first() =~= c.drop_first());
    } else {
        assert(c2.drop_first() =~= c.drop_first().update(k - 1, (c.drop_first()[k - 1].0, v)));
        assert(counts_unique(c.drop_first())) by {
            assert forall|a: int, b: int| 0 <= a < b < c.drop_first().len() implies c.drop_first()[a].0 != c.drop_first()[b].0 by {
                assert(c.drop_first()[a] == c[a + 1]);
                assert(c.drop_first()[b] == c[b + 1]);
            }
        }
        lemma_count_lookup_update(c.drop_first(), k - 1, v, t);
    }
}

proof fn lemma_count_lookup_push(c: Seq<(Seq<char>, nat)>, e: (Seq<char>, nat), t: Seq<char>)
    requires
        forall|k: int| 0 <= k < c.len() ==> c[k].0 != e.0,
    ensures
        count_lookup(c.push(e), t) == if t == e.0 {
            e.1
        } else {
            count_lookup(c, t)
        },
    decreases c.len(),
{
    let d = c.push(e);
    if c.len() == 0 {
        assert(d.drop_first() =~= Seq::<(Seq<char>, nat)>::empty());
        assert(d[0] == e);
        if d[0].0 == t {
            assert(count_lookup(d, t) == e.1);
        } else {
            assert(count_lookup(d, t) == count_lookup(d.drop_first(), t));
            assert(count_lookup(d.drop_first(), t) == 0);
        }
    } else {
        assert(d.drop_first() =~= c.drop_first().push(e));
        assert(d[0] == c[0]);
        assert(c[0].0 != e.0);
        if c[0].0 == t {
            assert(count_lookup(d, t) == c[0].1);
            assert(count_lookup(c, t) == c[0].1);
        } else {
            assert forall|k: int| 0 <= k < c.drop_first().len() implies c.drop_first()[k].0 != e.0 by {
                assert(c.drop_first()[k] == c[k + 1]);
            }
            lemma_count_lookup_push(c.drop_first(), e, t);
            assert(count_lookup(d, t) == count_lookup(d.drop_first(), t));
            assert(count_lookup(c, t) == count_lookup(c.drop_first(), t));
        }
    }
}

/// Adds one occurrence of `tag` to the table.
fn add_count(counts: &mut Vec<(String, usize)>, tag: &String, Ghost(bound): Ghost<nat>)
    requires
        counts_unique(counts_view(old(counts)@)),
        forall|k: int| 0 <= k < old(counts).len() ==> (#[trigger] old(counts)@[k]).1 <= bound,
        bound < usize::MAX,
    ensures
        counts_unique(counts_view(final(counts)@)),
        forall|k: int| 0 <= k < final(counts).len() ==> (#[trigger] final(counts)@[k]).1 <= bound + 1,
        forall|t: Seq<char>| count_lookup(counts_view(final(counts)@), t) == count_lookup(counts_view(old(counts)@), t) + if t == tag@ {
            1nat
        } else {
            0nat
        },
{
    let ghost c0 = counts_view(counts@);
    let tv = chars_of(tag.as_str());
    let mut k: usize = 0;
    while k < counts.len()
        invariant
            k <= counts.len(),
            c0 == counts_view(counts@),
            c0 == counts_view(old(counts)@),
            counts_unique(c0),
            forall|j: int| 0 <= j < counts.len() ==> (#[trigger] counts@[j]).1 <= bound,
            bound < usize::MAX,
            tv@ == tag@,
            forall|j: int| 0 <= j < k ==> c0[j].0 != tag@,
        decreases counts.len() - k,
    {
        if crate::text::eq_vec(&chars_of(counts[k].0.as_str()), &tv) {
            let n = counts[k].1;
            assert(n <= bound);
            let name = counts[k].0.clone();
            counts.set(k, (name, n + 1));
            proof {
                assert(c0[k as int].0 == tag@);
                assert(c0[k as int].1 == n);
                assert(counts_view(counts@) =~= c0.update(k as int, (c0[k as int].0, (n + 1) as nat)));
                assert forall|t: Seq<char>| count_lookup(counts_view(counts@), t) == count_lookup(c0, t) + if t == tag@ {
                    1nat
                } else {
                    0nat
                } by {
                    lemma_count_lookup_update(c0, k as int, (n + 1) as nat, t);
                    lemma_count_lookup_index(c0, k as int);
                }
                assert forall|a: int, b: int| 0 <= a < b < counts_view(counts@).len() implies counts_view(counts@)[a].0 != counts_view(counts@)[b].0 by {
                }
            }
            return;
        }
        k += 1;
    }
    counts.push((tag.clone(), 1));
    proof {
        assert(counts_view(counts@) =~= c0.push((tag@, 1nat)));
        assert forall|t: Seq<char>| count_lookup(counts_view(counts@), t) == count_lookup(c0, t) + if t == tag@ {
            1nat
        } else {
            0nat
        } by {
            lemma_count_lookup_push(c0, (tag@, 1nat), t);
            if t == tag@ {
                lemma_count_lookup_absent(c0, t);
            }
        }
    }
}

impl TagPopup {
    /// Narrows the shown tags to those that match the typed filter (see
    /// `filter_tags`), "(all)" included, and keeps the selection in range.
    pub fn rebuild(&mut self, all_tags: &Vec<String>)
        ensures
            strs_view(final(self).filtered_tags) == filter_tags(
                seq![all_label()] + strs_view(*all_tags),
                old(self).filter@,
            ),
            final(self).wf(),
            final(self).selected == if old(self).selected < final(self).filtered_tags.len() {
                old(self).selected as int
            } else if final(self).filtered_tags.len() > 0 {
                final(self).filtered_tags.len() - 1
            } else {
                0
            },
            final(self).filter@ == old(self).filter@,
            counts_view(final(self).counts@) == counts_view(old(self).counts@),
            final(self).total == old(self).total,
            final(self).scroll == old(self).scroll,
            opt_view(final(self).prev_tag_filter) == opt_view(old(self).prev_tag_filter),
    {
        let mut tags: Vec<String> = Vec::new();
        tags.push("(all)".to_owned());
        let mut k: usize = 0;
        while k < all_tags.len()
            invariant
                k <= all_tags.len(),
                strs_view(tags) == seq![all_label()] + strs_view(*all_tags).take(k as int),
            decreases all_tags.len() - k,
        {
            let ghost before = strs_view(tags);
            tags.push(all_tags[k].clone());
            assert(strs_view(tags) =~= before.push(all_tags@[k as int]@));
            assert(strs_view(*all_tags).take(k + 1) =~= strs_view(*all_tags).take(k as int).push(all_tags@[k as int]@));
            k += 1;
        }
        assert(strs_view(*all_tags).take(all_tags.len() as int) =~= strs_view(*all_tags));
        let ghost tv = strs_view(tags);
        let fv = chars_of(self.filter.as_str());
        if fv.len() == 0 {
            self.filtered_tags = tags;
        } else {
            let f = lowercase_vec(&fv);
            let mut kept: Vec<String> = Vec::new();
            let mut i: usize = 0;
            while i < tags.len()
                invariant
                    i <= tags.len(),
                    tv == strs_view(tags),
                    f@ == str_lowercase(fv@),
                    strs_view(kept) == tv.take(i as int).filter(|t: Seq<char>| contains(str_lowercase(t), f@)),
                decreases tags.len() - i,
            {
                let low = lowercase_vec(&chars_of(tags[i].as_str()));
                let ghost before = strs_view(kept);
                assert(tv.take(i + 1) =~= tv.take(i as int).push(tv[i as int]));
                proof {
                    tv.take(i as int).lemma_filter_push(tv[i as int], |t: Seq<char>| contains(str_lowercase(t), f@));
                }
                if contains_vec(&low, &f) {
                    kept.push(tags[i].clone());
                    assert(strs_view(kept) =~= before.push(tv[i as int]));
                }
                i += 1;
            }
            assert(tv.take(tags.len() as int) =~= tv);
            self.filtered_tags = kept;
        }
        if self.selected >= self.filtered_tags.len() {
            self.selected = if self.filtered_tags.len() > 0 {
                self.filtered_tags.len() - 1
            } else {
                0
            };
        }
    }

    /// How many bookmarks carry the tag; for "(all)", all of them.
    pub fn count_for(&self, tag: &str) -> (r: usize)
        ensures
            r == if tag@ == all_label() {
                self.total as nat
            } else {
                count_lookup(counts_view(self.counts@), tag@)
            },
    {
        let tv = chars_of(tag);
        if eq_str(&tv, "(all)") {
            return self.total;
        }
        let ghost cv = counts_view(self.counts@);
        let mut i: usize = 0;
        assert(cv.skip(0) =~= cv);
        while i < self.counts.len()
            invariant
                i <= self.counts.len(),
                cv == counts_view(self.counts@),
                tv@ == tag@,
                tag@ != all_label(),
                count_lookup(cv, tag@) == count_lookup(cv.skip(i as int), tag@),
            decreases self.counts.len() - i,
        {
            assert(cv.skip(i as int)[0] == (self.counts@[i as int].0@, self.counts@[i as int].1 as nat));
            assert(cv.skip(i as int).drop_first() =~= cv.skip(i + 1));
            if crate::text::eq_vec(&chars_of(self.counts[i].0.as_str()), &tv) {
                return self.counts[i].1;
            }
            i += 1;
        }
        0
    }

    /// The selected tag, if the selection is in range.
    pub fn selected_tag(&self) -> (r: Option<&String>)
        ensures
            r matches Some(t) ==> self.selected < self.filtered_tags.len() && t == self.filtered_tags@[self.selected as int],
            r is None ==> self.selected >= self.filtered_tags.len(),
    {
        if self.selected < self.filtered_tags.len() {
            Some(&self.filtered_tags[self.selected])
        } else {
            None
        }
    }

    /// The tag filter that the selection stands for: none for "(all)" or no
    /// selection, else the selected tag.
    pub fn selected_as_filter(&self) -> (r: Option<String>)
        ensures
            opt_view(r) == if self.selected < self.filtered_tags.len()
                && self.filtered_tags@[self.selected as int]@ != all_label() {
                Some(self.filtered_tags@[self.selected as int]@)
            } else {
                None
            },
    {
        match self.selected_tag() {
            Some(t) => if eq_str(&chars_of(t.as_str()), "(all)") {
                None
            } else {
                Some(t.clone())
            },
            None => None,
        }
    }

    pub fn move_up(&mut self)
        requires
            old(self).wf(),
        ensures
            final(self).wf(),
            final(self).selected == if old(self).selected > 0 {
                old(self).selected - 1
            } else {
                0
            },
            strs_view(final(self).filtered_tags) == strs_view(old(self).filtered_tags),
            final(self).scroll == old(self).scroll,
            final(self).filter@ == old(self).filter@,
            counts_view(final(self).counts@) == counts_view(old(self).counts@),
            final(self).total == old(self).total,
            opt_view(final(self).prev_tag_filter) == opt_view(old(self).prev_tag_filter),
    {
        self.selected = if self.selected > 0 {
            self.selected - 1
        } else {
            0
        };
    }

    pub fn move_down(&mut self)
        requires
            old(self).wf(),
        ensures
            final(self).wf(),
            final(self).selected == if old(self).filtered_tags.len() == 0 {
                old(self).selected as int
            } else if old(self).selected + 1 < old(self).filtered_tags.len() {
                old(self).selected + 1
            } else {
                old(self).filtered_tags.len() - 1
            },
            strs_view(final(self).filtered_tags) == strs_view(old(self).filtered_tags),
            final(self).scroll == old(self).scroll,
            final(self).filter@ == old(self).filter@,
            counts_view(final(self).counts@) == counts_view(old(self).counts@),
            final(self).total == old(self).total,
            opt_view(final(self).prev_tag_filter) == opt_view(old(self).prev_tag_filter),
    {
        if self.filtered_tags.len() > 0 {
            self.selected = if self.selected + 1 < self.filtered_tags.len() {
                self.selected + 1
            } else {
                self.filtered_tags.len() - 1
            };
        }
    }

    /// Twenty rows down, stopping at the last.
    pub fn page_down(&mut self)
        requires
            old(self).wf(),
        ensures
            final(self).wf(),
            final(self).selected == if old(self).filtered_tags.len() == 0 {
                old(self).selected as int
            } else if old(self).selected + 20 < old(self).filtered_tags.len() {
                old(self).selected + 20
            } else {
                old(self).filtered_tags.len() - 1
            },
            strs_view(final(self).filtered_tags) == strs_view(old(self).filtered_tags),
            final(self).scroll == old(self).scroll,
            final(self).filter@ == old(self).filter@,
            counts_view(final(self).counts@) == counts_view(old(self).counts@),
            final(self).total == old(self).total,
            opt_view(final(self).prev_tag_filter) == opt_view(old(self).prev_tag_filter),
    {
        if self.filtered_tags.len() > 0 {
            self.selected = if self.selected < self.filtered_tags.len() - 1 && self.filtered_tags.len() - 1 - self.selected > 20 {
                self.selected + 20
            } else {
                self.filtered_tags.len() - 1
            };
        }
    }

    /// Twenty rows up, stopping at the first.
    pub fn page_up(&mut self)
        requires
            old(self).wf(),
        ensures
            final(self).wf(),
            final(self).selected == if old(self).selected > 20 {
                old(self).selected - 20
            } else {
                0
            },
            strs_view(final(self).filtered_tags) == strs_view(old(self).filtered_tags),
            final(self).scroll == old(self).scroll,
            final(self).filter@ == old(self).filter@,
            counts_view(final(self).counts@) == counts_view(old(self).counts@),
            final(self).total == old(self).total,
            opt_view(final(self).prev_tag_filter) == opt_view(old(self).prev_tag_filter),
    {
        self.selected = if self.selected > 20 {
            self.selected - 20
        } else {
            0
        };
    }

    /// Scrolls so that the selected row is among the `visible` rows shown.
    pub fn clamp_scroll(&mut self, visible: usize)
        requires
            old(self).scroll as int + visible as int <= usize::MAX,
            old(self).selected < usize::MAX,
        ensures
            final(self).scroll == if old(self).selected < old(self).scroll {
                old(self).selected as int
            } else if old(self).selected >= old(self).scroll + visible {
                old(self).selected - visible + 1
            } else {
                old(self).scroll as int
            },
            final(self).selected == old(self).selected,
            strs_view(final(self).filtered_tags) == strs_view(old(self).filtered_tags),
            final(self).filter@ == old(self).filter@,
            counts_view(final(self).counts@) == counts_view(old(self).counts@),
            final(self).total == old(self).total,
            opt_view(final(self).prev_tag_filter) == opt_view(old(self).prev_tag_filter),
            visible > 0 ==> final(self).scroll <= final(self).selected < final(self).scroll + visible,
    {
        if self.selected < self.scroll {
            self.scroll = self.selected;
        } else if self.selected >= self.scroll + visible {
            self.scroll = self.selected + 1 - visible;
        }
    }
}

} // verus!
