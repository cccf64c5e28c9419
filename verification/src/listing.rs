use vstd::prelude::*;

use crate::model::{opt_view, strs_view, Bookmark, BookmarkView};
use crate::sorting::{keys_view, law_sort_by_keys, precedes, sort_indices, KeyView, SortKey};
use crate::text::{
    append_str, chars_of, char_utf8_len, char_utf8_len_exec, eq_vec, lit, seq_less, slice_vec,
    starts_with, starts_with_vec, string_of, trim, trim_vec, utf8_len,
};
use crate::text_split::{join, join_vec, lines, lines_vec};

verus! {

// ---------------------------------------------------------------------------
// The position in the list
// ---------------------------------------------------------------------------

/// Where the browser is in the list of shown bookmarks: the selected row (if
/// any), the number of rows, the height of the list on screen, and how far
/// the preview is scrolled.
pub struct ListCursor {
    pub selected: Option<usize>,
    pub len: usize,
    pub height: usize,
    pub preview_scroll: u16,
}

impl ListCursor {
    /// The selection, when there is one, is a row of the list.
    pub open spec fn wf(&self) -> bool {
        self.selected matches Some(i) ==> i < self.len
    }

    /// A cursor over `len` rows: the first selected, or none when empty.
    pub fn reset(len: usize, height: usize) -> (r: ListCursor)
        ensures
            r.wf(),
            r.len == len,
            r.height == height,
            r.preview_scroll == 0,
            r.selected == if len > 0 {
                Some(0usize)
            } else {
                None
            },
    {
        ListCursor { selected: if len > 0 { Some(0) } else { None }, len, height, preview_scroll: 0 }
    }

    pub fn move_up(&mut self)
        requires
            old(self).wf(),
        ensures
            final(self).wf(),
            final(self).len == old(self).len,
            final(self).height == old(self).height,
            old(self).len == 0 ==> *final(self) == *old(self),
            old(self).len > 0 ==> final(self).preview_scroll == 0 && final(self).selected == Some(
                match old(self).selected {
                    Some(i) => if i > 0 {
                        (i - 1) as usize
                    } else {
                        0usize
                    },
                    None => 0usize,
                },
            ),
    {
        if self.len == 0 {
            return;
        }
        let i = match self.selected {
            Some(i) => if i > 0 {
                i - 1
            } else {
                0
            },
            None => 0,
        };
        self.selected = Some(i);
        self.preview_scroll = 0;
    }

    pub fn move_down(&mut self)
        requires
            old(self).wf(),
        ensures
            final(self).wf(),
            final(self).len == old(self).len,
            final(self).height == old(self).height,
            old(self).len == 0 ==> *final(self) == *old(self),
            old(self).len > 0 ==> final(self).preview_scroll == 0 && final(self).selected == Some(
                match old(self).selected {
                    Some(i) => if i + 1 >= old(self).len {
                        (old(self).len - 1) as usize
                    } else {
                        (i + 1) as usize
                    },
                    None => 0usize,
                },
            ),
    {
        if self.len == 0 {
            return;
        }
        let i = match self.selected {
            Some(i) => if i >= self.len - 1 {
                self.len - 1
            } else {
                i + 1
            },
            None => 0,
        };
        self.selected = Some(i);
        self.preview_scroll = 0;
    }

    /// The cursor `lines` rows up, stopping at the first row; the preview
    /// scrolls back to its top. An empty list stays as it is.
    pub open spec fn scrolled_up(self, lines: nat) -> ListCursor {
        if self.len == 0 {
            self
        } else {
            let i = match self.selected {
                Some(i) => i as nat,
                None => 0,
            };
            ListCursor {
                selected: Some(if i > lines { (i - lines) as usize } else { 0usize }),
                preview_scroll: 0,
                ..self
            }
        }
    }

    /// The cursor `lines` rows down, stopping at the last row; the preview
    /// scrolls back to its top. An empty list stays as it is.
    pub open spec fn scrolled_down(self, lines: nat) -> ListCursor {
        if self.len == 0 {
            self
        } else {
            let i = match self.selected {
                Some(i) => i as nat,
                None => 0,
            };
            ListCursor {
                selected: Some(
                    if i + lines < self.len - 1 {
                        (i + lines) as usize
                    } else {
                        (self.len - 1) as usize
                    },
                ),
                preview_scroll: 0,
                ..self
            }
        }
    }

    /// `lines` rows up, stopping at the first.
    pub fn scroll_up(&mut self, lines: usize)
        requires
            old(self).wf(),
        ensures
            final(self).wf(),
            *final(self) == old(self).scrolled_up(lines as nat),
    {
        if self.len == 0 {
            return;
        }
        let i = match self.selected {
            Some(i) => i,
            None => 0,
        };
        self.selected = Some(if i > lines { i - lines } else { 0 });
        self.preview_scroll = 0;
    }

    /// `lines` rows down, stopping at the last.
    pub fn scroll_down(&mut self, lines: usize)
        requires
            old(self).wf(),
        ensures
            final(self).wf(),
            *final(self) == old(self).scrolled_down(lines as nat),
    {
        if self.len == 0 {
            return;
        }
        let i = match self.selected {
            Some(i) => i,
            None => 0,
        };
        let max = self.len - 1;
        self.selected = Some(if i < max && max - i > lines { i + lines } else { max });
        self.preview_scroll = 0;
    }

    /// Half the list's height up.
    pub fn half_page_up(&mut self)
        requires
            old(self).wf(),
        ensures
            final(self).wf(),
            *final(self) == old(self).scrolled_up((old(self).height / 2) as nat),
    {
        self.scroll_up(self.height / 2);
    }

    /// Half the list's height down.
    pub fn half_page_down(&mut self)
        requires
            old(self).wf(),
        ensures
            final(self).wf(),
            *final(self) == old(self).scrolled_down((old(self).height / 2) as nat),
    {
        self.scroll_down(self.height / 2);
    }

    /// The list's height up.
    pub fn page_up(&mut self)
        requires
            old(self).wf(),
        ensures
            final(self).wf(),
            *final(self) == old(self).scrolled_up(old(self).height as nat),
    {
        self.scroll_up(self.height);
    }

    /// The list's height down.
    pub fn page_down(&mut self)
        requires
            old(self).wf(),
        ensures
            final(self).wf(),
            *final(self) == old(self).scrolled_down(old(self).height as nat),
    {
        self.scroll_down(self.height);
    }

    pub fn move_to_top(&mut self)
        requires
            old(self).wf(),
        ensures
            final(self).wf(),
            old(self).len == 0 ==> *final(self) == *old(self),
            old(self).len > 0 ==> final(self).selected == Some(0usize) && final(self).preview_scroll
                == 0,
            final(self).len == old(self).len,
            final(self).height == old(self).height,
    {
        if self.len > 0 {
            self.selected = Some(0);
            self.preview_scroll = 0;
        }
    }

    pub fn move_to_bottom(&mut self)
        requires
            old(self).wf(),
        ensures
            final(self).wf(),
            old(self).len == 0 ==> *final(self) == *old(self),
            old(self).len > 0 ==> final(self).selected == Some((old(self).len - 1) as usize)
                && final(self).preview_scroll == 0,
            final(self).len == old(self).len,
            final(self).height == old(self).height,
    {
        if self.len > 0 {
            self.selected = Some(self.len - 1);
            self.preview_scroll = 0;
        }
    }

    /// Selects the row showing entry `entry_idx`, if it is shown.
    pub fn jump_to_entry(&mut self, shown: &Vec<usize>, entry_idx: usize)
        requires
            old(self).wf(),
            old(self).len == shown.len(),
        ensures
            final(self).wf(),
            final(self).len == old(self).len,
            final(self).height == old(self).height,
            shown@.contains(entry_idx) ==> final(self).preview_scroll == 0 && exists|p: int|
                0 <= p < shown.len() && shown@[p] == entry_idx && final(self).selected == Some(
                    p as usize,
                ) && forall|q: int| 0 <= q < p ==> shown@[q] != entry_idx,
            !shown@.contains(entry_idx) ==> *final(self) == *old(self),
    {
        let mut p: usize = 0;
        while p < shown.len()
            invariant
                p <= shown.len(),
                *self == *old(self),
                old(self).wf(),
                old(self).len == shown.len(),
                forall|q: int| 0 <= q < p ==> shown@[q] != entry_idx,
            decreases shown.len() - p,
        {
            if shown[p] == entry_idx {
                self.selected = Some(p);
                self.preview_scroll = 0;
                return;
            }
            p += 1;
        }
    }
}

// ---------------------------------------------------------------------------
// Entries and their texts
// ---------------------------------------------------------------------------

/// A bookmark as the browser lists it: its directory, directory name,
/// metadata, and the text that searching matches against.
pub struct Entry {
    pub dir: String,
    pub dir_name: String,
    pub bookmark: Bookmark,
    pub display: String,
}

/// The text a bookmark is searched by: its site, title and URL, those that
/// are not empty, separated by two spaces.
pub open spec fn display_spec(b: BookmarkView) -> Seq<char> {
    let site = match b.site {
        Some(s) => s,
        None => seq![],
    };
    join(seq![site, b.title, b.url].filter(|p: Seq<char>| p.len() > 0), "  "@)
}

pub fn entry_display(b: &Bookmark) -> (r: String)
    ensures
        r@ == display_spec(b@),
{
    let site = match &b.site {
        Some(s) => chars_of(s.as_str()),
        None => Vec::new(),
    };
    let title = chars_of(b.title.as_str());
    let url = chars_of(b.url.as_str());
    let ghost all = seq![site@, title@, url@];
    let mut parts: Vec<Vec<char>> = Vec::new();
    let ghost f = |p: Seq<char>| p.len() > 0;
    proof {
        all.take(0).lemma_filter_push(all[0], f);
        all.take(1).lemma_filter_push(all[1], f);
        all.take(2).lemma_filter_push(all[2], f);
        assert(all.take(0) =~= Seq::<Seq<char>>::empty());
        assert(all.take(1) =~= Seq::<Seq<char>>::empty().push(all[0]));
        assert(all.take(2) =~= all.take(1).push(all[1]));
        assert(all.take(3) =~= all.take(2).push(all[2]));
        assert(all.take(3) =~= all);
    }
    if site.len() > 0 {
        parts.push(site);
    }
    if title.len() > 0 {
        parts.push(title);
    }
    if url.len() > 0 {
        parts.push(url);
    }
    assert(parts@.map_values(|v: Vec<char>| v@) =~= all.filter(f));
    string_of(&join_vec(&parts, &lit("  ")))
}

/// An entry for a bookmark read from `dir`.
pub fn make_entry(dir: String, dir_name: String, bookmark: Bookmark) -> (r: Entry)
    ensures
        r.dir@ == dir@,
        r.dir_name@ == dir_name@,
        r.bookmark@ == bookmark@,
        r.display@ == display_spec(bookmark@),
{
    let display = entry_display(&bookmark);
    Entry { dir, dir_name, bookmark, display }
}

/// Whether a bookmark still lacks metadata that fetching may fill in.
pub open spec fn needs_enrich_spec(b: BookmarkView) -> bool {
    b.title.len() == 0 || b.title == b.url || b.description is None || b.site is None
        || b.year is None
}

pub fn needs_enrich(b: &Bookmark) -> (r: bool)
    ensures
        r == needs_enrich_spec(b@),
{
    b.title.as_str().is_empty() || b.title == b.url || b.description.is_none() || b.site.is_none()
        || b.year.is_none()
}

/// Whether a search text looks like a URL that could be added.
pub open spec fn importable_spec(input: Seq<char>) -> bool {
    let t = trim(input);
    t.len() > 0 && (starts_with(t, "http://"@) || starts_with(t, "https://"@))
}

pub fn is_importable(input: &str) -> (r: bool)
    ensures
        r == importable_spec(input@),
{
    let t = trim_vec(&chars_of(input));
    if t.len() == 0 {
        return false;
    }
    starts_with_vec(&t, &lit("http://")) || starts_with_vec(&t, &lit("https://"))
}

/// How many leading characters of `s` fit in `max` bytes of UTF-8.
pub open spec fn fit_count(s: Seq<char>, max: nat) -> nat
    decreases s.len(),
{
    if s.len() == 0 {
        0
    } else if char_utf8_len(s[0]) <= max {
        1 + fit_count(s.drop_first(), (max - char_utf8_len(s[0])) as nat)
    } else {
        0
    }
}

/// `s` cut to at most `max` bytes at a character boundary (`truncate_str`).
pub open spec fn truncate_spec(s: Seq<char>, max: nat) -> Seq<char> {
    if utf8_len(s) <= max {
        s
    } else {
        s.take(fit_count(s, max) as int)
    }
}

/// `s` cut to `max - 1` bytes with `…` added, when longer than `max` bytes
/// and `max` is at least 2.
pub open spec fn ellipsis_spec(s: Seq<char>, max: nat) -> Seq<char> {
    if max < 2 || utf8_len(s) <= max {
        s
    } else {
        s.take(fit_count(s, (max - 1) as nat) as int) + seq!['…']
    }
}

proof fn lemma_fit_count_step(s: Seq<char>, max: nat, k: int, used: nat)
    requires
        0 <= k < s.len(),
        used <= max,
        fit_count(s, max) == k + fit_count(s.skip(k), (max - used) as nat),
    ensures
        char_utf8_len(s[k]) <= max - used ==> fit_count(s, max) == k + 1 + fit_count(
            s.skip(k + 1),
            (max - used - char_utf8_len(s[k])) as nat,
        ),
        char_utf8_len(s[k]) > max - used ==> fit_count(s, max) == k,
{
    assert(s.skip(k)[0] == s[k]);
    assert(s.skip(k).drop_first() =~= s.skip(k + 1));
}

proof fn lemma_utf8_len_skip(s: Seq<char>, k: int)
    requires
        0 <= k < s.len(),
    ensures
        utf8_len(s) == utf8_len(s.take(k)) + utf8_len(s.skip(k)),
    decreases s.len(),
{
    if k == s.len() - 1 {
        assert(s.take(k) =~= s.drop_last());
        assert(s.skip(k).drop_last() =~= Seq::<char>::empty());
        assert(utf8_len(s.skip(k).drop_last()) == 0);
        assert(s.skip(k).last() == s.last());
        assert(utf8_len(s.skip(k)) == char_utf8_len(s.last()));
    } else {
        lemma_utf8_len_skip(s.drop_last(), k);
        assert(s.drop_last().take(k) =~= s.take(k));
        assert(s.drop_last().skip(k) =~= s.skip(k).drop_last());
    }
}

/// The number of leading characters of `s` that fit in `max` bytes, and the
/// whole byte length when it is at most `max`.
fn fit_prefix(s: &Vec<char>, max: usize) -> (r: (usize, bool))
    ensures
        r.0 == fit_count(s@, max as nat),
        r.1 == (utf8_len(s@) <= max),
{
    let mut k: usize = 0;
    let mut used: usize = 0;
    assert(s@.skip(0) =~= s@);
    assert(s@.take(0) =~= Seq::<char>::empty());
    while k < s.len()
        invariant
            k <= s.len(),
            used <= max,
            used == utf8_len(s@.take(k as int)),
            fit_count(s@, max as nat) == k + fit_count(s@.skip(k as int), (max - used) as nat),
        decreases s.len() - k,
    {
        let c = char_utf8_len_exec(s[k]);
        proof {
            lemma_fit_count_step(s@, max as nat, k as int, used as nat);
            assert(s@.take(k + 1).drop_last() =~= s@.take(k as int));
        }
        if c > max - used {
            proof {
                lemma_utf8_len_skip(s@, k as int);
                lemma_utf8_len_first(s@.skip(k as int));
            }
            return (k, false);
        }
        used = used + c;
        k += 1;
    }
    assert(s@.take(s.len() as int) =~= s@);
    assert(s@.skip(s.len() as int) =~= Seq::<char>::empty());
    (k, true)
}

proof fn lemma_utf8_len_first(s: Seq<char>)
    requires
        s.len() > 0,
    ensures
        utf8_len(s) >= char_utf8_len(s[0]),
    decreases s.len(),
{
    if s.len() > 1 {
        lemma_utf8_len_first(s.drop_last());
    }
}

/// `s` cut to at most `max` bytes, at a character boundary.
pub fn truncate_str(s: &str, max: usize) -> (r: String)
    ensures
        r@ == truncate_spec(s@, max as nat),
{
    let v = chars_of(s);
    let (k, fits) = fit_prefix(&v, max);
    if fits {
        string_of(&v)
    } else {
        proof {
            lemma_fit_count_le(v@, max as nat);
        }
        string_of(&slice_vec(&v, 0, k))
    }
}

proof fn lemma_fit_count_le(s: Seq<char>, max: nat)
    ensures
        fit_count(s, max) <= s.len(),
    decreases s.len(),
{
    if s.len() > 0 && char_utf8_len(s[0]) <= max {
        lemma_fit_count_le(s.drop_first(), (max - char_utf8_len(s[0])) as nat);
    }
}

proof fn lemma_utf8_len_prepend(c: char, t: Seq<char>)
    ensures
        utf8_len(seq![c] + t) == char_utf8_len(c) + utf8_len(t),
    decreases t.len(),
{
    if t.len() == 0 {
        assert(seq![c] + t =~= seq![c]);
        assert(seq![c].drop_last() =~= Seq::<char>::empty());
        assert(utf8_len(Seq::<char>::empty()) == 0);
    } else {
        lemma_utf8_len_prepend(c, t.drop_last());
        assert((seq![c] + t).drop_last() =~= seq![c] + t.drop_last());
        assert((seq![c] + t).last() == t.last());
    }
}

proof fn lemma_fit_fits(s: Seq<char>, max: nat)
    ensures
        utf8_len(s.take(fit_count(s, max) as int)) <= max,
    decreases s.len(),
{
    if s.len() > 0 && char_utf8_len(s[0]) <= max {
        let rest = (max - char_utf8_len(s[0])) as nat;
        lemma_fit_fits(s.drop_first(), rest);
        lemma_fit_count_le(s.drop_first(), rest);
        let k = fit_count(s.drop_first(), rest);
        assert(s.take(k as int + 1) =~= seq![s[0]] + s.drop_first().take(k as int));
        lemma_utf8_len_prepend(s[0], s.drop_first().take(k as int));
    } else {
        assert(s.take(0) =~= Seq::<char>::empty());
    }
}

/// What `truncate_str` returns is a prefix of the text that takes at most
/// `max` bytes.
pub proof fn law_truncate_fits(s: Seq<char>, max: nat)
    ensures
        utf8_len(truncate_spec(s, max)) <= max,
        truncate_spec(s, max) == s.take(truncate_spec(s, max).len() as int),
{
    lemma_fit_fits(s, max);
    lemma_fit_count_le(s, max);
    if utf8_len(s) <= max {
        assert(s.take(s.len() as int) =~= s);
    }
}

/// `s` cut to fit `max` bytes with an ellipsis when it is longer.
pub fn truncate_ellipsis(s: &str, max: usize) -> (r: String)
    ensures
        r@ == ellipsis_spec(s@, max as nat),
{
    let v = chars_of(s);
    if max < 2 {
        return string_of(&v);
    }
    let (_, fits) = fit_prefix(&v, max);
    if fits {
        return string_of(&v);
    }
    let (k, _) = fit_prefix(&v, max - 1);
    proof {
        lemma_fit_count_le(v@, (max - 1) as nat);
    }
    let mut out = slice_vec(&v, 0, k);
    out.push('…');
    string_of(&out)
}

// ---------------------------------------------------------------------------
// Copying and adding
// ---------------------------------------------------------------------------

/// The Markdown link for a bookmark, `[title](url)`, with the URL standing
/// in for an empty title; `None` when the bookmark has no URL.
pub open spec fn markdown_spec(b: BookmarkView) -> Option<Seq<char>> {
    if b.url.len() == 0 {
        None
    } else {
        let title = if b.title.len() == 0 {
            b.url
        } else {
            b.title
        };
        Some("["@ + title + "]("@ + b.url + ")"@)
    }
}

pub fn markdown_link(b: &Bookmark) -> (r: Option<String>)
    ensures
        opt_view(r) == markdown_spec(b@),
{
    if b.url.as_str().is_empty() {
        return None;
    }
    let title = if b.title.as_str().is_empty() {
        chars_of(b.url.as_str())
    } else {
        chars_of(b.title.as_str())
    };
    let mut out = lit("[");
    crate::text::append_vec(&mut out, &title);
    append_str(&mut out, "](");
    append_str(&mut out, b.url.as_str());
    append_str(&mut out, ")");
    Some(string_of(&out))
}

/// The first of the lines that starts with `p`.
pub open spec fn first_starting(ls: Seq<Seq<char>>, p: Seq<char>) -> Option<Seq<char>>
    decreases ls.len(),
{
    if ls.len() == 0 {
        None
    } else if starts_with(ls[0], p) {
        Some(ls[0])
    } else {
        first_starting(ls.drop_first(), p)
    }
}

/// What the browser reports after running the `add` command: on success,
/// the first line of its output that starts with `Added:` (or a generic
/// message); on failure, the last line of its error output (or a generic
/// message).
pub open spec fn add_message_spec(success: bool, out: Seq<char>, err: Seq<char>) -> Seq<char> {
    if success {
        match first_starting(lines(out), "Added:"@) {
            Some(l) => l,
            None => "Added successfully"@,
        }
    } else {
        let ls = lines(err);
        if ls.len() > 0 {
            ls.last()
        } else {
            "Add failed"@
        }
    }
}

pub fn add_message(success: bool, stdout: &str, stderr: &str) -> (r: String)
    ensures
        r@ == add_message_spec(success, stdout@, stderr@),
{
    if success {
        let cs = chars_of(stdout);
        let ls = lines_vec(&cs);
        let ghost lv = ls@.map_values(|v: Vec<char>| v@);
        assert(lv == lines(stdout@));
        let prefix = lit("Added:");
        let mut i: usize = 0;
        assert(lv.skip(0) =~= lv);
        while i < ls.len()
            invariant
                i <= ls.len(),
                lv == ls@.map_values(|v: Vec<char>| v@),
                prefix@ == "Added:"@,
                first_starting(lv, "Added:"@) == first_starting(lv.skip(i as int), "Added:"@),
                lv == lines(stdout@),
                success,
            decreases ls.len() - i,
        {
            assert(lv.skip(i as int)[0] == ls@[i as int]@);
            if starts_with_vec(&ls[i], &prefix) {
                assert(lv.skip(i as int).len() > 0);
                assert(starts_with(lv.skip(i as int)[0], "Added:"@));
                assert(first_starting(lv.skip(i as int), "Added:"@) == Some(ls@[i as int]@));
                return string_of(&ls[i]);
            }
            assert(lv.skip(i as int).drop_first() =~= lv.skip(i + 1));
            i += 1;
        }
        "Added successfully".to_string()
    } else {
        let ls = lines_vec(&chars_of(stderr));
        if ls.len() > 0 {
            string_of(&ls[ls.len() - 1])
        } else {
            "Add failed".to_string()
        }
    }
}

// ---------------------------------------------------------------------------
// The tags of the library
// ---------------------------------------------------------------------------

/// All tags of the entries, entry by entry, with repeats.
pub open spec fn flat_tags(es: Seq<Entry>) -> Seq<Seq<char>>
    decreases es.len(),
{
    if es.len() == 0 {
        seq![]
    } else {
        flat_tags(es.drop_last()) + es.last().bookmark@.tags
    }
}

/// Whether some entry carries the tag.
pub open spec fn is_tag_of(es: Seq<Entry>, t: Seq<char>) -> bool {
    exists|i: int| 0 <= i < es.len() && (#[trigger] es[i]).bookmark@.tags.contains(t)
}

proof fn lemma_flat_tags(es: Seq<Entry>, t: Seq<char>)
    ensures
        flat_tags(es).contains(t) <==> is_tag_of(es, t),
    decreases es.len(),
{
    if es.len() > 0 {
        let prev = es.drop_last();
        lemma_flat_tags(prev, t);
        let a = flat_tags(prev);
        let b = es.last().bookmark@.tags;
        if flat_tags(es).contains(t) {
            let k = choose|k: int| 0 <= k < flat_tags(es).len() && flat_tags(es)[k] == t;
            if k < a.len() {
                assert(a[k] == t);
                let i = choose|i: int| 0 <= i < prev.len() && (#[trigger] prev[i]).bookmark@.tags.contains(t);
                assert(es[i] == prev[i]);
            } else {
                assert(b[k - a.len()] == t);
                assert(es[es.len() - 1] == es.last());
            }
        }
        if is_tag_of(es, t) {
            let i = choose|i: int| 0 <= i < es.len() && (#[trigger] es[i]).bookmark@.tags.contains(t);
            if i < es.len() - 1 {
                assert(prev[i] == es[i]);
                assert(a.contains(t));
                let k = choose|k: int| 0 <= k < a.len() && a[k] == t;
                assert(flat_tags(es)[k] == t);
            } else {
                let k = choose|k: int| 0 <= k < b.len() && b[k] == t;
                assert(flat_tags(es)[a.len() + k] == t);
            }
        }
    }
}

/// The texts of character vectors.
pub open spec fn texts(v: Seq<Vec<char>>) -> Seq<Seq<char>> {
    v.map_values(|x: Vec<char>| x@)
}

/// Whether one of the first `m` items of `order` points at the text `t`.
pub open spec fn seen_upto(fv: Seq<Seq<char>>, order: Seq<usize>, m: int, t: Seq<char>) -> bool {
    exists|q: int| 0 <= q < m && #[trigger] fv[order[q] as int] == t
}

/// Whether the texts are in strictly increasing order.
pub open spec fn strictly_sorted(s: Seq<Seq<char>>) -> bool {
    forall|i: int, j: int| 0 <= i < j < s.len() ==> seq_less(#[trigger] s[i], #[trigger] s[j])
}

/// The tags used in the library: each once, in ascending order.
pub fn all_tags(entries: &Vec<Entry>) -> (r: Vec<String>)
    ensures
        strictly_sorted(strs_view(r)),
        forall|t: Seq<char>| strs_view(r).contains(t) <==> is_tag_of(entries@, t),
{
    let ghost es = entries@;
    let mut flat: Vec<Vec<char>> = Vec::new();
    let mut i: usize = 0;
    while i < entries.len()
        invariant
            i <= entries.len(),
            es == entries@,
            flat@.map_values(|v: Vec<char>| v@) == flat_tags(es.take(i as int)),
        decreases entries.len() - i,
    {
        let tags = &entries[i].bookmark.tags;
        let ghost start = flat@.map_values(|v: Vec<char>| v@);
        let mut j: usize = 0;
        while j < tags.len()
            invariant
                j <= tags.len(),
                *tags == entries@[i as int].bookmark.tags,
                flat@.map_values(|v: Vec<char>| v@) == start + strs_view(*tags).take(j as int),
            decreases tags.len() - j,
        {
            let ghost before = flat@.map_values(|v: Vec<char>| v@);
            flat.push(chars_of(tags[j].as_str()));
            assert(flat@.map_values(|v: Vec<char>| v@) =~= before.push(tags@[j as int]@));
            j += 1;
            assert(strs_view(*tags).take(j as int) =~= strs_view(*tags).take(j - 1).push(tags@[j - 1]@));
        }
        proof {
            assert(strs_view(*tags).take(tags.len() as int) =~= strs_view(*tags));
            assert(es.take(i + 1).drop_last() =~= es.take(i as int));
            assert(es.take(i + 1).last() == es[i as int]);
        }
        i += 1;
    }
    assert(es.take(entries.len() as int) =~= es);
    let ghost fv = flat@.map_values(|v: Vec<char>| v@);
    let mut keys: Vec<SortKey> = Vec::new();
    let mut items: Vec<usize> = Vec::new();
    let mut k: usize = 0;
    while k < flat.len()
        invariant
            k <= flat.len(),
            fv == flat@.map_values(|v: Vec<char>| v@),
            keys.len() == k,
            items@ == Seq::new(k as nat, |m: int| m as usize),
            forall|m: int| 0 <= m < k ==> (#[trigger] keys@[m])@ == KeyView::Text(fv[m]),
        decreases flat.len() - k,
    {
        keys.push(SortKey::Text(slice_vec(&flat[k], 0, flat[k].len())));
        assert(flat@[k as int]@.subrange(0, flat@[k as int]@.len() as int) =~= flat@[k as int]@);
        items.push(k);
        k += 1;
        assert(items@ =~= Seq::new(k as nat, |m: int| m as usize));
    }
    let ghost kv = keys_view(keys@);
    assert(kv =~= Seq::new(fv.len(), |m: int| KeyView::Text(fv[m])));
    let order = sort_indices(&keys, false, &items);
    proof {
        law_sort_by_keys(kv, false, items@);
    }
    let mut out: Vec<Vec<char>> = Vec::new();
    let mut m: usize = 0;
    while m < order.len()
        invariant
            m <= order.len(),
            fv == flat@.map_values(|v: Vec<char>| v@),
            kv == keys_view(keys@),
            kv == Seq::new(fv.len(), |q: int| KeyView::Text(fv[q])),
            keys.len() == flat.len(),
            forall|q: int| 0 <= q < order.len() ==> #[trigger] order@[q] < keys.len(),
            crate::sorting::sorted_by(kv, false, order@),
            strictly_sorted(texts(out@)),
            m > 0 ==> out.len() > 0 && out@[out.len() - 1]@ == fv[order@[m - 1] as int],
            m == 0 ==> out.len() == 0,
            forall|t: Seq<char>| #[trigger] texts(out@).contains(t) <==> seen_upto(fv, order@, m as int, t),
        decreases order.len() - m,
    {
        let x = &flat[order[m]];
        let ghost old_out = out@;
        let ghost ov = texts(out@);
        let fresh = out.len() == 0 || !eq_vec(&out[out.len() - 1], x);
        proof {
            if m > 0 {
                let prev = fv[order@[m - 1] as int];
                assert(!precedes(kv, false, order@[m as int], order@[m - 1]));
                assert(!seq_less(x@, prev));
                crate::text::lemma_less_total(x@, prev);
            }
        }
        if fresh {
            out.push(slice_vec(x, 0, x.len()));
            proof {
                assert(x@.subrange(0, x@.len() as int) =~= x@);
                let nv = texts(out@);
                assert(nv =~= ov.push(x@));
                assert forall|a: int, b: int| 0 <= a < b < nv.len() implies seq_less(#[trigger] nv[a], #[trigger] nv[b]) by {
                    if b == nv.len() - 1 {
                        if a < ov.len() - 1 {
                            assert(seq_less(ov[a], ov[ov.len() - 1]));
                            crate::text::lemma_less_transitive(ov[a], ov[ov.len() - 1], x@);
                        }
                    } else {
                        assert(nv[a] == ov[a] && nv[b] == ov[b]);
                    }
                }
                assert forall|t: Seq<char>| #[trigger] nv.contains(t) <==> seen_upto(fv, order@, m + 1, t) by {
                    if nv.contains(t) && t != x@ {
                        let w = choose|w: int| 0 <= w < nv.len() && nv[w] == t;
                        assert(ov[w] == t);
                        assert(ov.contains(t));
                        assert(texts(old_out).contains(t));
                        let q = choose|q: int| 0 <= q < m && #[trigger] fv[order@[q] as int] == t;
                        assert(seen_upto(fv, order@, m + 1, t));
                    }
                    if t == x@ {
                        assert(fv[order@[m as int] as int] == t);
                        assert(nv[nv.len() - 1] == t);
                    }
                    if seen_upto(fv, order@, m + 1, t) {
                        let q = choose|q: int| 0 <= q < m + 1 && #[trigger] fv[order@[q] as int] == t;
                        if q < m {
                            assert(seen_upto(fv, order@, m as int, t));
                            assert(texts(old_out).contains(t));
                            let w = choose|w: int| 0 <= w < ov.len() && ov[w] == t;
                            assert(nv[w] == t);
                        }
                    }
                }
            }
        } else {
            proof {
                assert forall|t: Seq<char>| #[trigger] texts(out@).contains(t) <==> seen_upto(fv, order@, m + 1, t) by {
                    assert(texts(out@) == ov);
                    if seen_upto(fv, order@, m + 1, t) {
                        let q = choose|q: int| 0 <= q < m + 1 && #[trigger] fv[order@[q] as int] == t;
                        if q == m {
                            assert(ov[ov.len() - 1] == t);
                        } else {
                            assert(seen_upto(fv, order@, m as int, t));
                        }
                    }
                    if texts(out@).contains(t) {
                        assert(texts(old_out).contains(t));
                        assert(seen_upto(fv, order@, m as int, t));
                        let q = choose|q: int| 0 <= q < m && #[trigger] fv[order@[q] as int] == t;
                    }
                }
            }
        }
        m += 1;
    }
    proof {
        let ov = texts(out@);
        let ids = Seq::new(fv.len(), |q: int| q as usize);
        assert forall|t: Seq<char>| ov.contains(t) <==> is_tag_of(es, t) by {
            lemma_flat_tags(es, t);
            if ov.contains(t) {
                assert(seen_upto(fv, order@, order.len() as int, t));
                let q = choose|q: int| 0 <= q < order.len() && #[trigger] fv[order@[q] as int] == t;
                assert(fv.contains(t));
            }
            if fv.contains(t) {
                let w = choose|w: int| 0 <= w < fv.len() && fv[w] == t;
                assert(ids[w] == w as usize);
                assert(ids.to_multiset().count(w as usize) > 0) by {
                    broadcast use vstd::seq_lib::group_to_multiset_ensures;
                    assert(ids.contains(w as usize));
                }
                assert(order@.to_multiset().count(w as usize) > 0);
                assert(order@.contains(w as usize)) by {
                    broadcast use vstd::seq_lib::group_to_multiset_ensures;
                }
                let q = choose|q: int| 0 <= q < order.len() && order@[q] == w as usize;
                assert(fv[order@[q] as int] == t);
                assert(seen_upto(fv, order@, order.len() as int, t));
                assert(texts(out@).contains(t));
            }
        }
    }
    crate::text_split::vecs_to_strings(&out)
}

} // verus!
