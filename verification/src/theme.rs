use vstd::prelude::*;

use crate::model::opt_view;
use crate::paths::{file_stem, file_stem_vec, path_join, path_join_vec};
use crate::text::{
    char_utf8_len, char_utf8_len_exec, chars_of, eq_vec, lit, replace_char, replace_char_vec,
    strip_prefix, strip_prefix_vec, string_of, utf8_len,
};

verus! {

/// A terminal color: the terminal's own (`Reset`) or an RGB value.
#[derive(Debug, Clone, Copy, PartialEq, Eq, Structural)]
pub enum Color {
    Reset,
    Rgb(u8, u8, u8),
}

/// The colors of each role in the interface.
#[derive(Debug, Clone, Copy, PartialEq, Eq, Structural)]
pub struct Theme {
    pub background: Color,
    pub text: Color,
    pub text_dim: Color,
    pub text_muted: Color,
    pub author: Color,
    pub highlight: Color,
    pub link: Color,
    pub date: Color,
    pub border: Color,
    pub selection: Color,
    pub popup_bg: Color,
    pub popup_border: Color,
    pub normal_bg: Color,
    pub insert_bg: Color,
    pub status_fg: Color,
}

/// Every role in the terminal's own colors.
pub open spec fn terminal_theme() -> Theme {
    Theme {
        background: Color::Reset,
        text: Color::Reset,
        text_dim: Color::Reset,
        text_muted: Color::Reset,
        author: Color::Reset,
        highlight: Color::Reset,
        link: Color::Reset,
        date: Color::Reset,
        border: Color::Reset,
        selection: Color::Reset,
        popup_bg: Color::Reset,
        popup_border: Color::Reset,
        normal_bg: Color::Reset,
        insert_bg: Color::Reset,
        status_fg: Color::Reset,
    }
}

impl Default for Theme {
    fn default() -> (r: Theme)
        ensures
            r == terminal_theme(),
    {
        Theme {
            background: Color::Reset,
            text: Color::Reset,
            text_dim: Color::Reset,
            text_muted: Color::Reset,
            author: Color::Reset,
            highlight: Color::Reset,
            link: Color::Reset,
            date: Color::Reset,
            border: Color::Reset,
            selection: Color::Reset,
            popup_bg: Color::Reset,
            popup_border: Color::Reset,
            normal_bg: Color::Reset,
            insert_bg: Color::Reset,
            status_fg: Color::Reset,
        }
    }
}

/// The `[ui]` table of a theme file: for each role, the palette name of its
/// color.
pub struct UiConfig {
    pub background: Option<String>,
    pub text: Option<String>,
    pub text_dim: Option<String>,
    pub text_muted: Option<String>,
    pub author: Option<String>,
    pub highlight: Option<String>,
    pub link: Option<String>,
    pub date: Option<String>,
    pub border: Option<String>,
    pub selection: Option<String>,
    pub cursor_bg: Option<String>,
    pub popup_bg: Option<String>,
    pub popup_border: Option<String>,
    pub normal_bg: Option<String>,
    pub insert_bg: Option<String>,
    pub status_fg: Option<String>,
}

/// A theme file: the `[colors]` palette (name to `#rrggbb`; each name once,
/// see `ThemeConfig::wf`) and the optional `[ui]` table.
pub struct ThemeConfig {
    pub colors: Vec<(String, String)>,
    pub ui: Option<UiConfig>,
}

// ---------------------------------------------------------------------------
// Hex colors
// ---------------------------------------------------------------------------

/// The value of a hexadecimal digit (either case).
pub open spec fn hex_value(c: char) -> Option<u8> {
    if '0' <= c && c <= '9' {
        Some(((c as int) - ('0' as int)) as u8)
    } else if 'a' <= c && c <= 'f' {
        Some(((c as int) - ('a' as int) + 10) as u8)
    } else if 'A' <= c && c <= 'F' {
        Some(((c as int) - ('A' as int) + 10) as u8)
    } else {
        None
    }
}

/// `u8::from_str_radix` in base 16 of the two-character text `ab`, which
/// accepts a leading `+`.
pub open spec fn hex_pair(a: char, b: char) -> Option<u8> {
    if a == '+' {
        hex_value(b)
    } else {
        match (hex_value(a), hex_value(b)) {
            (Some(x), Some(y)) => Some((x * 16 + y) as u8),
            _ => None,
        }
    }
}

pub open spec fn is_ascii(s: Seq<char>) -> bool {
    forall|i: int| 0 <= i < s.len() ==> char_utf8_len(#[trigger] s[i]) == 1
}

/// The color written `#rrggbb`; `None` for anything else. Each pair is read
/// as `u8::from_str_radix` does. A six-byte text that is not ASCII has a
/// piece that is no number.
pub open spec fn parse_hex_spec(s: Seq<char>) -> Option<Color> {
    if s.len() > 0 && s[0] == '#' {
        let r = s.drop_first();
        if utf8_len(r) != 6 || !is_ascii(r) {
            None
        } else {
            match (hex_pair(r[0], r[1]), hex_pair(r[2], r[3]), hex_pair(r[4], r[5])) {
                (Some(x), Some(y), Some(z)) => Some(Color::Rgb(x, y, z)),
                _ => None,
            }
        }
    } else {
        None
    }
}

/// Whether byte offset `k` of `s`'s UTF-8 encoding starts a character.
pub open spec fn is_boundary(s: Seq<char>, k: nat) -> bool {
    exists|j: int| 0 <= j <= s.len() && utf8_len(#[trigger] s.take(j)) == k
}

/// Whether reading `s` as a color cannot panic: `#` followed by six bytes is
/// cut into three two-byte pieces, which must fall on character boundaries.
pub open spec fn hex_safe(s: Seq<char>) -> bool {
    s.len() > 0 && s[0] == '#' && utf8_len(s.drop_first()) == 6 ==> is_boundary(s.drop_first(), 2)
        && is_boundary(s.drop_first(), 4)
}

proof fn lemma_utf8_len_take(s: Seq<char>, j: int)
    requires
        0 <= j < s.len(),
    ensures
        utf8_len(s.take(j + 1)) == utf8_len(s.take(j)) + char_utf8_len(s[j]),
{
    assert(s.take(j + 1).drop_last() =~= s.take(j));
}

proof fn lemma_utf8_len_ge(s: Seq<char>)
    ensures
        utf8_len(s) >= s.len(),
        utf8_len(s) == s.len() ==> is_ascii(s),
    decreases s.len(),
{
    if s.len() > 0 {
        lemma_utf8_len_ge(s.drop_last());
        if utf8_len(s) == s.len() {
            assert forall|i: int| 0 <= i < s.len() implies char_utf8_len(#[trigger] s[i]) == 1 by {
                if i < s.len() - 1 {
                    assert(s.drop_last()[i] == s[i]);
                }
            }
        }
    }
}

proof fn lemma_ascii_utf8_len(s: Seq<char>)
    requires
        is_ascii(s),
    ensures
        utf8_len(s) == s.len(),
    decreases s.len(),
{
    if s.len() > 0 {
        assert(is_ascii(s.drop_last())) by {
            assert forall|i: int| 0 <= i < s.drop_last().len() implies char_utf8_len(#[trigger] s.drop_last()[i]) == 1 by {
                assert(s.drop_last()[i] == s[i]);
            }
        }
        lemma_ascii_utf8_len(s.drop_last());
        assert(char_utf8_len(s.last()) == 1);
    }
}

fn hex_value_exec(c: char) -> (r: Option<u8>)
    ensures
        r == hex_value(c),
{
    if '0' <= c && c <= '9' {
        Some(((c as u32) - ('0' as u32)) as u8)
    } else if 'a' <= c && c <= 'f' {
        Some(((c as u32) - ('a' as u32) + 10) as u8)
    } else if 'A' <= c && c <= 'F' {
        Some(((c as u32) - ('A' as u32) + 10) as u8)
    } else {
        None
    }
}

fn hex_pair_exec(a: char, b: char) -> (r: Option<u8>)
    ensures
        r == hex_pair(a, b),
{
    if a == '+' {
        hex_value_exec(b)
    } else {
        match (hex_value_exec(a), hex_value_exec(b)) {
            (Some(x), Some(y)) => Some(x * 16 + y),
            _ => None,
        }
    }
}

/// The UTF-8 length of `s`, or any value above `cap` when it exceeds `cap`.
fn utf8_len_capped(s: &Vec<char>, cap: usize) -> (r: usize)
    requires
        cap < 1000,
    ensures
        r <= cap ==> r == utf8_len(s@),
        r > cap ==> utf8_len(s@) > cap,
{
    let mut n: usize = 0;
    let mut i: usize = 0;
    while i < s.len()
        invariant
            i <= s.len(),
            cap < 1000,
            n == utf8_len(s@.take(i as int)),
            n <= cap,
        decreases s.len() - i,
    {
        proof {
            lemma_utf8_len_take(s@, i as int);
        }
        n = n + char_utf8_len_exec(s[i]);
        i += 1;
        if n > cap {
            proof {
                lemma_utf8_len_prefix_le(s@, i as int);
            }
            return n;
        }
    }
    assert(s@.take(s.len() as int) =~= s@);
    n
}

proof fn lemma_utf8_len_prefix_le(s: Seq<char>, j: int)
    requires
        0 <= j <= s.len(),
    ensures
        utf8_len(s.take(j)) <= utf8_len(s),
    decreases s.len() - j,
{
    if j < s.len() {
        lemma_utf8_len_prefix_le(s, j + 1);
        lemma_utf8_len_take(s, j);
    } else {
        assert(s.take(j) =~= s);
    }
}

/// Reads a `#rrggbb` color.
pub fn parse_hex(s: &str) -> (r: Option<Color>)
    requires
        hex_safe(s@),
    ensures
        r == parse_hex_spec(s@),
{
    let v = chars_of(s);
    if v.len() == 0 || v[0] != '#' {
        return None;
    }
    let rest = crate::text::slice_vec(&v, 1, v.len());
    assert(rest@ =~= s@.drop_first());
    if utf8_len_capped(&rest, 6) != 6 {
        return None;
    }
    proof {
        lemma_utf8_len_ge(rest@);
    }
    let mut i: usize = 0;
    while i < rest.len()
        invariant
            i <= rest.len(),
            rest.len() <= 6,
            forall|j: int| 0 <= j < i ==> char_utf8_len(#[trigger] rest@[j]) == 1,
            utf8_len(rest@) == 6,
            rest@ == s@.drop_first(),
            s@.len() > 0 && s@[0] == '#',
        decreases rest.len() - i,
    {
        if char_utf8_len_exec(rest[i]) != 1 {
            assert(!is_ascii(rest@));
            return None;
        }
        i += 1;
    }
    proof {
        lemma_ascii_utf8_len(rest@);
    }
    let r = hex_pair_exec(rest[0], rest[1]);
    let g = hex_pair_exec(rest[2], rest[3]);
    let b = hex_pair_exec(rest[4], rest[5]);
    match (r, g, b) {
        (Some(x), Some(y), Some(z)) => Some(Color::Rgb(x, y, z)),
        _ => None,
    }
}

/// Whether reading `s` as a color cannot panic (see `hex_safe`).
pub fn is_hex_safe(s: &str) -> (r: bool)
    ensures
        r == hex_safe(s@),
{
    let v = chars_of(s);
    if v.len() == 0 || v[0] != '#' {
        return true;
    }
    let rest = crate::text::slice_vec(&v, 1, v.len());
    assert(rest@ =~= s@.drop_first());
    if utf8_len_capped(&rest, 6) != 6 {
        return true;
    }
    let mut at2 = false;
    let mut at4 = false;
    let mut n: usize = 0;
    let mut i: usize = 0;
    assert(rest@.take(0) =~= Seq::<char>::empty());
    while i < rest.len()
        invariant
            i <= rest.len(),
            n == utf8_len(rest@.take(i as int)),
            n <= 6,
            utf8_len(rest@) == 6,
            at2 <==> exists|j: int| 0 <= j <= i && utf8_len(#[trigger] rest@.take(j)) == 2,
            at4 <==> exists|j: int| 0 <= j <= i && utf8_len(#[trigger] rest@.take(j)) == 4,
        decreases rest.len() - i,
    {
        proof {
            lemma_utf8_len_take(rest@, i as int);
            lemma_utf8_len_prefix_le(rest@, i + 1);
        }
        n = n + char_utf8_len_exec(rest[i]);
        i += 1;
        if n == 2 {
            at2 = true;
        }
        if n == 4 {
            at4 = true;
        }
        proof {
            assert forall|j: int| 0 <= j <= i && utf8_len(#[trigger] rest@.take(j)) == 2 implies at2 by {
                if j == i {
                } else {
                }
            }
            assert forall|j: int| 0 <= j <= i && utf8_len(#[trigger] rest@.take(j)) == 4 implies at4 by {
                if j == i {
                } else {
                }
            }
        }
    }
    assert(rest@.take(rest.len() as int) =~= rest@);
    at2 && at4
}

// ---------------------------------------------------------------------------
// Resolving a theme file
// ---------------------------------------------------------------------------

pub open spec fn palette_view(p: Seq<(String, String)>) -> Seq<(Seq<char>, Seq<char>)> {
    p.map_values(|e: (String, String)| (e.0@, e.1@))
}

/// The value of the first palette entry with this name.
pub open spec fn palette_get(p: Seq<(Seq<char>, Seq<char>)>, name: Seq<char>) -> Option<Seq<char>>
    decreases p.len(),
{
    if p.len() == 0 {
        None
    } else if p[0].0 == name {
        Some(p[0].1)
    } else {
        palette_get(p.drop_first(), name)
    }
}

/// The color the palette gives a name (`resolve_color`).
pub open spec fn name_color(p: Seq<(Seq<char>, Seq<char>)>, name: Seq<char>) -> Option<Color> {
    match palette_get(p, name) {
        Some(hex) => parse_hex_spec(hex),
        None => None,
    }
}

/// Whether looking a name up cannot panic.
pub open spec fn name_safe(p: Seq<(Seq<char>, Seq<char>)>, name: Seq<char>) -> bool {
    match palette_get(p, name) {
        Some(hex) => hex_safe(hex),
        None => true,
    }
}

/// The color of the first of `names` that the palette gives a color.
pub open spec fn first_color(p: Seq<(Seq<char>, Seq<char>)>, names: Seq<Seq<char>>) -> Option<Color>
    decreases names.len(),
{
    if names.len() == 0 {
        None
    } else {
        match name_color(p, names[0]) {
            Some(c) => Some(c),
            None => first_color(p, names.drop_first()),
        }
    }
}

/// Whether trying `names` in turn cannot panic.
pub open spec fn names_safe(p: Seq<(Seq<char>, Seq<char>)>, names: Seq<Seq<char>>) -> bool
    decreases names.len(),
{
    names.len() == 0 || (name_safe(p, names[0]) && (name_color(p, names[0]) is None ==> names_safe(
        p,
        names.drop_first(),
    )))
}

/// The color of a role: that of the palette name the `[ui]` table gives it,
/// else that of the first of its conventional palette names present, else the
/// base theme's.
pub open spec fn role_color(p: Seq<(Seq<char>, Seq<char>)>, field: Option<Seq<char>>, names: Seq<Seq<char>>, fallback: Color) -> Color {
    let chosen = match field {
        Some(n) => name_color(p, n),
        None => None,
    };
    match chosen {
        Some(c) => c,
        None => match first_color(p, names) {
            Some(c) => c,
            None => fallback,
        },
    }
}

/// Whether resolving a role cannot panic.
pub open spec fn role_safe(p: Seq<(Seq<char>, Seq<char>)>, field: Option<Seq<char>>, names: Seq<Seq<char>>) -> bool {
    match field {
        Some(n) => name_safe(p, n) && (name_color(p, n) is None ==> names_safe(p, names)),
        None => names_safe(p, names),
    }
}

fn palette_lookup(p: &Vec<(String, String)>, name: &Vec<char>) -> (r: Option<String>)
    ensures
        opt_view(r) == palette_get(palette_view(p@), name@),
{
    let ghost pv = palette_view(p@);
    let mut i: usize = 0;
    assert(pv.skip(0) =~= pv);
    while i < p.len()
        invariant
            i <= p.len(),
            pv == palette_view(p@),
            palette_get(pv, name@) == palette_get(pv.skip(i as int), name@),
        decreases p.len() - i,
    {
        assert(pv.skip(i as int)[0] == (p@[i as int].0@, p@[i as int].1@));
        assert(pv.skip(i as int).drop_first() =~= pv.skip(i + 1));
        if eq_vec(&chars_of(p[i].0.as_str()), name) {
            return Some(p[i].1.clone());
        }
        i += 1;
    }
    None
}

fn name_color_exec(p: &Vec<(String, String)>, name: &Vec<char>) -> (r: Option<Color>)
    requires
        name_safe(palette_view(p@), name@),
    ensures
        r == name_color(palette_view(p@), name@),
{
    match palette_lookup(p, name) {
        Some(hex) => parse_hex(hex.as_str()),
        None => None,
    }
}

fn role(p: &Vec<(String, String)>, field: &Option<String>, names: &Vec<Vec<char>>, fallback: Color) -> (r: Color)
    requires
        role_safe(palette_view(p@), opt_view(*field), names@.map_values(|v: Vec<char>| v@)),
    ensures
        r == role_color(palette_view(p@), opt_view(*field), names@.map_values(|v: Vec<char>| v@), fallback),
{
    let ghost pv = palette_view(p@);
    let ghost nv = names@.map_values(|v: Vec<char>| v@);
    if let Some(n) = field {
        if let Some(c) = name_color_exec(p, &chars_of(n.as_str())) {
            return c;
        }
    }
    let mut i: usize = 0;
    assert(nv.skip(0) =~= nv);
    while i < names.len()
        invariant
            i <= names.len(),
            pv == palette_view(p@),
            nv == names@.map_values(|v: Vec<char>| v@),
            first_color(pv, nv) == first_color(pv, nv.skip(i as int)),
            names_safe(pv, nv.skip(i as int)),
            match opt_view(*field) {
                Some(n) => name_color(pv, n) is None,
                None => true,
            },
        decreases names.len() - i,
    {
        assert(nv.skip(i as int)[0] == names@[i as int]@);
        assert(nv.skip(i as int).drop_first() =~= nv.skip(i + 1));
        if let Some(c) = name_color_exec(p, &names[i]) {
            return c;
        }
        i += 1;
    }
    assert(nv.skip(names.len() as int) =~= Seq::<Seq<char>>::empty());
    fallback
}

/// The palette names tried for each role, in order.
pub open spec fn background_names() -> Seq<Seq<char>> { seq!["bg"@] }
pub open spec fn text_names() -> Seq<Seq<char>> { seq!["fg"@, "text"@] }
pub open spec fn text_dim_names() -> Seq<Seq<char>> { seq!["comment"@, "fg_dim"@, "subtext0"@] }
pub open spec fn text_muted_names() -> Seq<Seq<char>> { seq!["fg_muted"@, "overlay0"@] }
pub open spec fn author_names() -> Seq<Seq<char>> { seq!["magenta"@, "mauve"@, "pink"@] }
pub open spec fn highlight_names() -> Seq<Seq<char>> { seq!["yellow"@, "peach"@] }
pub open spec fn link_names() -> Seq<Seq<char>> { seq!["blue"@, "sapphire"@] }
pub open spec fn date_names() -> Seq<Seq<char>> { seq!["green"@, "teal"@] }
pub open spec fn border_names() -> Seq<Seq<char>> { seq!["fg_gutter"@, "fg_muted"@, "surface1"@] }
pub open spec fn selection_names() -> Seq<Seq<char>> {
    seq!["bg_highlight"@, "surface0"@, "surface1"@, "blue"@, "fg_bright"@]
}
pub open spec fn popup_bg_names() -> Seq<Seq<char>> { seq!["bg_dark"@, "mantle"@, "bg"@] }
pub open spec fn popup_border_names() -> Seq<Seq<char>> { seq!["blue7"@, "lavender"@, "blue"@] }
pub open spec fn normal_bg_names() -> Seq<Seq<char>> { seq!["blue"@, "sapphire"@] }
pub open spec fn insert_bg_names() -> Seq<Seq<char>> { seq!["green"@, "teal"@] }
pub open spec fn status_fg_names() -> Seq<Seq<char>> { seq!["bg_dark1"@, "crust"@, "bg"@] }

fn names_of(list: &[&str]) -> (r: Vec<Vec<char>>)
    ensures
        r@.map_values(|v: Vec<char>| v@) == list@.map_values(|s: &str| s@),
{
    let mut out: Vec<Vec<char>> = Vec::new();
    let mut i: usize = 0;
    while i < list.len()
        invariant
            i <= list.len(),
            out.len() == i,
            forall|j: int| 0 <= j < i ==> (#[trigger] out@[j])@ == list@[j]@,
        decreases list.len() - i,
    {
        out.push(lit(list[i]));
        i += 1;
    }
    assert(out@.map_values(|v: Vec<char>| v@) =~= list@.map_values(|s: &str| s@));
    out
}

/// The palette name that the `[ui]` table gives a role.
pub open spec fn ui_name(ui: Option<UiConfig>, pick: spec_fn(UiConfig) -> Option<String>) -> Option<Seq<char>> {
    match ui {
        Some(u) => opt_view(pick(u)),
        None => None,
    }
}

/// The palette name for the selection: `cursor_bg` when it is set, else
/// `selection`.
pub open spec fn selection_field(ui: Option<UiConfig>) -> Option<Seq<char>> {
    match ui {
        Some(u) => if u.cursor_bg is Some {
            opt_view(u.cursor_bg)
        } else {
            opt_view(u.selection)
        },
        None => None,
    }
}

/// The theme a theme file gives over `base` (see `role_color`).
pub open spec fn resolve_spec(cfg: ThemeConfig, base: Theme) -> Theme {
    let p = palette_view(cfg.colors@);
    Theme {
        background: role_color(p, ui_name(cfg.ui, |u: UiConfig| u.background), background_names(), base.background),
        text: role_color(p, ui_name(cfg.ui, |u: UiConfig| u.text), text_names(), base.text),
        text_dim: role_color(p, ui_name(cfg.ui, |u: UiConfig| u.text_dim), text_dim_names(), base.text_dim),
        text_muted: role_color(p, ui_name(cfg.ui, |u: UiConfig| u.text_muted), text_muted_names(), base.text_muted),
        author: role_color(p, ui_name(cfg.ui, |u: UiConfig| u.author), author_names(), base.author),
        highlight: role_color(p, ui_name(cfg.ui, |u: UiConfig| u.highlight), highlight_names(), base.highlight),
        link: role_color(p, ui_name(cfg.ui, |u: UiConfig| u.link), link_names(), base.link),
        date: role_color(p, ui_name(cfg.ui, |u: UiConfig| u.date), date_names(), base.date),
        border: role_color(p, ui_name(cfg.ui, |u: UiConfig| u.border), border_names(), base.border),
        selection: role_color(p, selection_field(cfg.ui), selection_names(), base.selection),
        popup_bg: role_color(p, ui_name(cfg.ui, |u: UiConfig| u.popup_bg), popup_bg_names(), base.popup_bg),
        popup_border: role_color(p, ui_name(cfg.ui, |u: UiConfig| u.popup_border), popup_border_names(), base.popup_border),
        normal_bg: role_color(p, ui_name(cfg.ui, |u: UiConfig| u.normal_bg), normal_bg_names(), base.normal_bg),
        insert_bg: role_color(p, ui_name(cfg.ui, |u: UiConfig| u.insert_bg), insert_bg_names(), base.insert_bg),
        status_fg: role_color(p, ui_name(cfg.ui, |u: UiConfig| u.status_fg), status_fg_names(), base.status_fg),
    }
}

/// Whether resolving the theme file cannot panic: every palette value that
/// resolving reads and that is `#` with six bytes is cut at character
/// boundaries.
pub open spec fn resolve_safe(cfg: ThemeConfig) -> bool {
    let p = palette_view(cfg.colors@);
    &&& role_safe(p, ui_name(cfg.ui, |u: UiConfig| u.background), background_names())
    &&& role_safe(p, ui_name(cfg.ui, |u: UiConfig| u.text), text_names())
    &&& role_safe(p, ui_name(cfg.ui, |u: UiConfig| u.text_dim), text_dim_names())
    &&& role_safe(p, ui_name(cfg.ui, |u: UiConfig| u.text_muted), text_muted_names())
    &&& role_safe(p, ui_name(cfg.ui, |u: UiConfig| u.author), author_names())
    &&& role_safe(p, ui_name(cfg.ui, |u: UiConfig| u.highlight), highlight_names())
    &&& role_safe(p, ui_name(cfg.ui, |u: UiConfig| u.link), link_names())
    &&& role_safe(p, ui_name(cfg.ui, |u: UiConfig| u.date), date_names())
    &&& role_safe(p, ui_name(cfg.ui, |u: UiConfig| u.border), border_names())
    &&& role_safe(p, selection_field(cfg.ui), selection_names())
    &&& role_safe(p, ui_name(cfg.ui, |u: UiConfig| u.popup_bg), popup_bg_names())
    &&& role_safe(p, ui_name(cfg.ui, |u: UiConfig| u.popup_border), popup_border_names())
    &&& role_safe(p, ui_name(cfg.ui, |u: UiConfig| u.normal_bg), normal_bg_names())
    &&& role_safe(p, ui_name(cfg.ui, |u: UiConfig| u.insert_bg), insert_bg_names())
    &&& role_safe(p, ui_name(cfg.ui, |u: UiConfig| u.status_fg), status_fg_names())
}

fn name_safe_exec(p: &Vec<(String, String)>, name: &Vec<char>) -> (r: bool)
    ensures
        r == name_safe(palette_view(p@), name@),
{
    match palette_lookup(p, name) {
        Some(hex) => is_hex_safe(hex.as_str()),
        None => true,
    }
}

fn name_color_checked(p: &Vec<(String, String)>, name: &Vec<char>) -> (r: (bool, Option<Color>))
    ensures
        r.0 == name_safe(palette_view(p@), name@),
        r.0 ==> r.1 == name_color(palette_view(p@), name@),
{
    if name_safe_exec(p, name) {
        (true, name_color_exec(p, name))
    } else {
        (false, None)
    }
}

fn role_is_safe(p: &Vec<(String, String)>, field: &Option<String>, names: &Vec<Vec<char>>) -> (r: bool)
    ensures
        r == role_safe(palette_view(p@), opt_view(*field), names@.map_values(|v: Vec<char>| v@)),
{
    let ghost pv = palette_view(p@);
    let ghost nv = names@.map_values(|v: Vec<char>| v@);
    if let Some(n) = field {
        let (ok, c) = name_color_checked(p, &chars_of(n.as_str()));
        if !ok {
            return false;
        }
        if c.is_some() {
            return true;
        }
    }
    let mut i: usize = 0;
    assert(nv.skip(0) =~= nv);
    while i < names.len()
        invariant
            i <= names.len(),
            pv == palette_view(p@),
            nv == names@.map_values(|v: Vec<char>| v@),
            role_safe(pv, opt_view(*field), nv) == names_safe(pv, nv.skip(i as int)),
        decreases names.len() - i,
    {
        assert(nv.skip(i as int)[0] == names@[i as int]@);
        assert(nv.skip(i as int).drop_first() =~= nv.skip(i + 1));
        let (ok, c) = name_color_checked(p, &names[i]);
        if !ok {
            return false;
        }
        if c.is_some() {
            return true;
        }
        i += 1;
    }
    assert(nv.skip(names.len() as int) =~= Seq::<Seq<char>>::empty());
    true
}

/// Whether no name occurs twice in a palette, as in the TOML table it is
/// read from.
#[verifier::opaque]
pub open spec fn palette_names_unique(p: Seq<(String, String)>) -> bool {
    forall|i: int, j: int| 0 <= i < j < p.len() ==> p[i].0@ != p[j].0@
}

impl ThemeConfig {
    /// Whether the palette holds each name once (the theme file's invariant).
    pub open spec fn wf(&self) -> bool {
        palette_names_unique(self.colors@)
    }

    /// Whether the palette holds each name once.
    pub fn has_unique_names(&self) -> (r: bool)
        ensures
            r == self.wf(),
    {
        let p = &self.colors;
        let mut i: usize = 0;
        while i < p.len()
            invariant
                p@ == self.colors@,
                i <= p.len(),
                forall|a: int, b: int| 0 <= a < i && a < b < p@.len() ==> p@[a].0@ != p@[b].0@,
            decreases p.len() - i,
        {
            let a = chars_of(p[i].0.as_str());
            let mut j: usize = i + 1;
            while j < p.len()
                invariant
                    p@ == self.colors@,
                    i < p.len(),
                    i + 1 <= j <= p.len(),
                    a@ == p@[i as int].0@,
                    forall|b: int| i < b < j ==> p@[i as int].0@ != p@[b].0@,
                decreases p.len() - j,
            {
                let b = chars_of(p[j].0.as_str());
                if eq_vec(&a, &b) {
                    assert(p@[i as int].0@ == p@[j as int].0@);
                    assert(!palette_names_unique(p@)) by {
                        reveal(palette_names_unique);
                    }
                    return false;
                }
                j += 1;
            }
            i += 1;
        }
        assert(palette_names_unique(p@)) by {
            reveal(palette_names_unique);
        }
        true
    }

    /// The fields of the `[ui]` table, or nothing for each when it is absent.
    fn ui_fields(&self) -> (r: UiConfig)
        ensures
            opt_view(r.background) == ui_name(self.ui, |u: UiConfig| u.background),
            opt_view(r.text) == ui_name(self.ui, |u: UiConfig| u.text),
            opt_view(r.text_dim) == ui_name(self.ui, |u: UiConfig| u.text_dim),
            opt_view(r.text_muted) == ui_name(self.ui, |u: UiConfig| u.text_muted),
            opt_view(r.author) == ui_name(self.ui, |u: UiConfig| u.author),
            opt_view(r.highlight) == ui_name(self.ui, |u: UiConfig| u.highlight),
            opt_view(r.link) == ui_name(self.ui, |u: UiConfig| u.link),
            opt_view(r.date) == ui_name(self.ui, |u: UiConfig| u.date),
            opt_view(r.border) == ui_name(self.ui, |u: UiConfig| u.border),
            opt_view(r.selection) == ui_name(self.ui, |u: UiConfig| u.selection),
            opt_view(r.cursor_bg) == ui_name(self.ui, |u: UiConfig| u.cursor_bg),
            opt_view(r.popup_bg) == ui_name(self.ui, |u: UiConfig| u.popup_bg),
            opt_view(r.popup_border) == ui_name(self.ui, |u: UiConfig| u.popup_border),
            opt_view(r.normal_bg) == ui_name(self.ui, |u: UiConfig| u.normal_bg),
            opt_view(r.insert_bg) == ui_name(self.ui, |u: UiConfig| u.insert_bg),
            opt_view(r.status_fg) == ui_name(self.ui, |u: UiConfig| u.status_fg),
    {
        match &self.ui {
            Some(u) => UiConfig {
                background: crate::model::copy_opt(&u.background),
                text: crate::model::copy_opt(&u.text),
                text_dim: crate::model::copy_opt(&u.text_dim),
                text_muted: crate::model::copy_opt(&u.text_muted),
                author: crate::model::copy_opt(&u.author),
                highlight: crate::model::copy_opt(&u.highlight),
                link: crate::model::copy_opt(&u.link),
                date: crate::model::copy_opt(&u.date),
                border: crate::model::copy_opt(&u.border),
                selection: crate::model::copy_opt(&u.selection),
                cursor_bg: crate::model::copy_opt(&u.cursor_bg),
                popup_bg: crate::model::copy_opt(&u.popup_bg),
                popup_border: crate::model::copy_opt(&u.popup_border),
                normal_bg: crate::model::copy_opt(&u.normal_bg),
                insert_bg: crate::model::copy_opt(&u.insert_bg),
                status_fg: crate::model::copy_opt(&u.status_fg),
            },
            None => UiConfig {
                background: None,
                text: None,
                text_dim: None,
                text_muted: None,
                author: None,
                highlight: None,
                link: None,
                date: None,
                border: None,
                selection: None,
                cursor_bg: None,
                popup_bg: None,
                popup_border: None,
                normal_bg: None,
                insert_bg: None,
                status_fg: None,
            },
        }
    }

    /// The name that picks the selection color: `cursor_bg` when set, else
    /// `selection`.
    fn selection_name(u: &UiConfig) -> (r: Option<String>)
        ensures
            opt_view(r) == if u.cursor_bg is Some {
                opt_view(u.cursor_bg)
            } else {
                opt_view(u.selection)
            },
    {
        if u.cursor_bg.is_some() {
            crate::model::copy_opt(&u.cursor_bg)
        } else {
            crate::model::copy_opt(&u.selection)
        }
    }

    /// Whether `resolve` can be called on this theme file (see
    /// `resolve_safe`); where it cannot, the cut of a color value would fall
    /// inside a character.
    #[verifier::rlimit(40)]
    pub fn is_resolvable(&self) -> (r: bool)
        ensures
            r == resolve_safe(*self),
    {
        let p = &self.colors;
        let u = self.ui_fields();
        let sel = Self::selection_name(&u);
        assert(opt_view(sel) == selection_field(self.ui));
        let names = names_of(&["bg"]);
        assert(names@.map_values(|v: Vec<char>| v@) =~= seq!["bg"@]);
        let ok1 = role_is_safe(p, &u.background, &names);
        let names = names_of(&["fg", "text"]);
        assert(names@.map_values(|v: Vec<char>| v@) =~= seq!["fg"@, "text"@]);
        let ok2 = role_is_safe(p, &u.text, &names);
        let names = names_of(&["comment", "fg_dim", "subtext0"]);
        assert(names@.map_values(|v: Vec<char>| v@) =~= seq!["comment"@, "fg_dim"@, "subtext0"@]);
        let ok3 = role_is_safe(p, &u.text_dim, &names);
        let names = names_of(&["fg_muted", "overlay0"]);
        assert(names@.map_values(|v: Vec<char>| v@) =~= seq!["fg_muted"@, "overlay0"@]);
        let ok4 = role_is_safe(p, &u.text_muted, &names);
        let names = names_of(&["magenta", "mauve", "pink"]);
        assert(names@.map_values(|v: Vec<char>| v@) =~= seq!["magenta"@, "mauve"@, "pink"@]);
        let ok5 = role_is_safe(p, &u.author, &names);
        let names = names_of(&["yellow", "peach"]);
        assert(names@.map_values(|v: Vec<char>| v@) =~= seq!["yellow"@, "peach"@]);
        let ok6 = role_is_safe(p, &u.highlight, &names);
        let names = names_of(&["blue", "sapphire"]);
        assert(names@.map_values(|v: Vec<char>| v@) =~= seq!["blue"@, "sapphire"@]);
        let ok7 = role_is_safe(p, &u.link, &names);
        let names = names_of(&["green", "teal"]);
        assert(names@.map_values(|v: Vec<char>| v@) =~= seq!["green"@, "teal"@]);
        let ok8 = role_is_safe(p, &u.date, &names);
        let names = names_of(&["fg_gutter", "fg_muted", "surface1"]);
        assert(names@.map_values(|v: Vec<char>| v@) =~= seq!["fg_gutter"@, "fg_muted"@, "surface1"@]);
        let ok9 = role_is_safe(p, &u.border, &names);
        let names = names_of(&["bg_highlight", "surface0", "surface1", "blue", "fg_bright"]);
        assert(names@.map_values(|v: Vec<char>| v@) =~= seq!["bg_highlight"@, "surface0"@, "surface1"@, "blue"@, "fg_bright"@]);
        let ok10 = role_is_safe(p, &sel, &names);
        let names = names_of(&["bg_dark", "mantle", "bg"]);
        assert(names@.map_values(|v: Vec<char>| v@) =~= seq!["bg_dark"@, "mantle"@, "bg"@]);
        let ok11 = role_is_safe(p, &u.popup_bg, &names);
        let names = names_of(&["blue7", "lavender", "blue"]);
        assert(names@.map_values(|v: Vec<char>| v@) =~= seq!["blue7"@, "lavender"@, "blue"@]);
        let ok12 = role_is_safe(p, &u.popup_border, &names);
        let names = names_of(&["blue", "sapphire"]);
        assert(names@.map_values(|v: Vec<char>| v@) =~= seq!["blue"@, "sapphire"@]);
        let ok13 = role_is_safe(p, &u.normal_bg, &names);
        let names = names_of(&["green", "teal"]);
        assert(names@.map_values(|v: Vec<char>| v@) =~= seq!["green"@, "teal"@]);
        let ok14 = role_is_safe(p, &u.insert_bg, &names);
        let names = names_of(&["bg_dark1", "crust", "bg"]);
        assert(names@.map_values(|v: Vec<char>| v@) =~= seq!["bg_dark1"@, "crust"@, "bg"@]);
        let ok15 = role_is_safe(p, &u.status_fg, &names);
        ok1 && ok2 && ok3 && ok4 && ok5 && ok6 && ok7 && ok8 && ok9 && ok10 && ok11 && ok12 && ok13 && ok14 && ok15
    }

    /// The theme this file gives over `base`: for each role, the color of the
    /// palette name its `[ui]` entry names (for the selection, `cursor_bg`
    /// before `selection`), else of the first of the role's conventional
    /// palette names that the palette holds as a valid `#rrggbb`, else
    /// `base`'s.
    #[verifier::rlimit(40)]
    #[verifier::spinoff_prover]
    pub fn resolve(&self, base: &Theme) -> (r: Theme)
        requires
            self.wf(),
            resolve_safe(*self),
        ensures
            r == resolve_spec(*self, *base),
    {
        let p = &self.colors;
        let u = self.ui_fields();
        let sel = Self::selection_name(&u);
        assert(opt_view(sel) == selection_field(self.ui));
        let names = names_of(&["bg"]);
        assert(names@.map_values(|v: Vec<char>| v@) =~= background_names());
        let background = role(p, &u.background, &names, base.background);
        let names = names_of(&["fg", "text"]);
        assert(names@.map_values(|v: Vec<char>| v@) =~= text_names());
        let text = role(p, &u.text, &names, base.text);
        let names = names_of(&["comment", "fg_dim", "subtext0"]);
        assert(names@.map_values(|v: Vec<char>| v@) =~= text_dim_names());
        let text_dim = role(p, &u.text_dim, &names, base.text_dim);
        let names = names_of(&["fg_muted", "overlay0"]);
        assert(names@.map_values(|v: Vec<char>| v@) =~= text_muted_names());
        let text_muted = role(p, &u.text_muted, &names, base.text_muted);
        let names = names_of(&["magenta", "mauve", "pink"]);
        assert(names@.map_values(|v: Vec<char>| v@) =~= author_names());
        let author = role(p, &u.author, &names, base.author);
        let names = names_of(&["yellow", "peach"]);
        assert(names@.map_values(|v: Vec<char>| v@) =~= highlight_names());
        let highlight = role(p, &u.highlight, &names, base.highlight);
        let names = names_of(&["blue", "sapphire"]);
        assert(names@.map_values(|v: Vec<char>| v@) =~= link_names());
        let link = role(p, &u.link, &names, base.link);
        let names = names_of(&["green", "teal"]);
        assert(names@.map_values(|v: Vec<char>| v@) =~= date_names());
        let date = role(p, &u.date, &names, base.date);
        let names = names_of(&["fg_gutter", "fg_muted", "surface1"]);
        assert(names@.map_values(|v: Vec<char>| v@) =~= border_names());
        let border = role(p, &u.border, &names, base.border);
        let names = names_of(&["bg_highlight", "surface0", "surface1", "blue", "fg_bright"]);
        assert(names@.map_values(|v: Vec<char>| v@) =~= selection_names());
        let selection = role(p, &sel, &names, base.selection);
        let names = names_of(&["bg_dark", "mantle", "bg"]);
        assert(names@.map_values(|v: Vec<char>| v@) =~= popup_bg_names());
        let popup_bg = role(p, &u.popup_bg, &names, base.popup_bg);
        let names = names_of(&["blue7", "lavender", "blue"]);
        assert(names@.map_values(|v: Vec<char>| v@) =~= popup_border_names());
        let popup_border = role(p, &u.popup_border, &names, base.popup_border);
        let names = names_of(&["blue", "sapphire"]);
        assert(names@.map_values(|v: Vec<char>| v@) =~= normal_bg_names());
        let normal_bg = role(p, &u.normal_bg, &names, base.normal_bg);
        let names = names_of(&["green", "teal"]);
        assert(names@.map_values(|v: Vec<char>| v@) =~= insert_bg_names());
        let insert_bg = role(p, &u.insert_bg, &names, base.insert_bg);
        let names = names_of(&["bg_dark1", "crust", "bg"]);
        assert(names@.map_values(|v: Vec<char>| v@) =~= status_fg_names());
        let status_fg = role(p, &u.status_fg, &names, base.status_fg);
        Theme {
            background,
            text,
            text_dim,
            text_muted,
            author,
            highlight,
            link,
            date,
            border,
            selection,
            popup_bg,
            popup_border,
            normal_bg,
            insert_bg,
            status_fg,
        }
    }
}

/// `configured` with a leading `~/` replaced by the home directory.
pub open spec fn expand_home_spec(home: Seq<char>, configured: Seq<char>) -> Seq<char> {
    match strip_prefix(configured, "~/"@) {
        Some(rest) => path_join(home, rest),
        None => configured,
    }
}

pub fn expand_home(home: &str, configured_path: &str) -> (r: String)
    ensures
        r@ == expand_home_spec(home@, configured_path@),
{
    let c = chars_of(configured_path);
    match strip_prefix_vec(&c, &lit("~/")) {
        Some(rest) => string_of(&path_join_vec(&chars_of(home), &rest)),
        None => string_of(&c),
    }
}

/// The name a theme file is listed under: its file stem (or `theme`) with
/// dashes shown as spaces.
pub open spec fn theme_name_spec(path: Seq<char>) -> Seq<char> {
    let stem = match file_stem(path) {
        Some(s) => s,
        None => "theme"@,
    };
    replace_char(stem, '-', seq![' '])
}

pub fn theme_name(path: &str) -> (r: String)
    ensures
        r@ == theme_name_spec(path@),
{
    let stem = match file_stem_vec(&chars_of(path)) {
        Some(s) => s,
        None => lit("theme"),
    };
    let mut space: Vec<char> = Vec::new();
    space.push(' ');
    assert(space@ =~= seq![' ']);
    string_of(&replace_char_vec(&stem, '-', &space))
}

proof fn lemma_empty_palette_no_color(p: Seq<(Seq<char>, Seq<char>)>, names: Seq<Seq<char>>)
    requires
        p.len() == 0,
    ensures
        first_color(p, names) is None,
        names_safe(p, names),
    decreases names.len(),
{
    if names.len() > 0 {
        lemma_empty_palette_no_color(p, names.drop_first());
    }
}

/// A theme file with an empty palette and no `[ui]` table leaves every role
/// in the base theme's color; in particular, with the terminal theme as base,
/// nothing is colored.
pub proof fn law_empty_theme_file_keeps_base(cfg: ThemeConfig, base: Theme)
    requires
        cfg.colors@.len() == 0,
        cfg.ui is None,
    ensures
        resolve_safe(cfg),
        resolve_spec(cfg, base) == base,
{
    let p = palette_view(cfg.colors@);
    lemma_empty_palette_no_color(p, background_names());
    lemma_empty_palette_no_color(p, text_names());
    lemma_empty_palette_no_color(p, text_dim_names());
    lemma_empty_palette_no_color(p, text_muted_names());
    lemma_empty_palette_no_color(p, author_names());
    lemma_empty_palette_no_color(p, highlight_names());
    lemma_empty_palette_no_color(p, link_names());
    lemma_empty_palette_no_color(p, date_names());
    lemma_empty_palette_no_color(p, border_names());
    lemma_empty_palette_no_color(p, selection_names());
    lemma_empty_palette_no_color(p, popup_bg_names());
    lemma_empty_palette_no_color(p, popup_border_names());
    lemma_empty_palette_no_color(p, normal_bg_names());
    lemma_empty_palette_no_color(p, insert_bg_names());
    lemma_empty_palette_no_color(p, status_fg_names());
}

/// A role that the `[ui]` table names explicitly takes that palette entry's
/// color, whatever the conventional palette names hold (shown here for the
/// background).
pub proof fn law_explicit_ui_name_wins(cfg: ThemeConfig, base: Theme, c: Color)
    requires
        cfg.ui matches Some(u) && u.background matches Some(n) && name_color(
            palette_view(cfg.colors@),
            n@,
        ) == Some(c),
    ensures
        resolve_spec(cfg, base).background == c,
{
}

/// `cursor_bg`, when set, picks the selection color before `selection`.
pub proof fn law_cursor_bg_before_selection(cfg: ThemeConfig, base: Theme, c: Color)
    requires
        cfg.ui matches Some(u) && u.cursor_bg matches Some(n) && name_color(
            palette_view(cfg.colors@),
            n@,
        ) == Some(c),
    ensures
        resolve_spec(cfg, base).selection == c,
{
}

/// Each role of a resolved theme is, on its own, the color of the palette
/// name that the `[ui]` table gives it (for the selection, `cursor_bg`
/// before `selection`), else the color of the first of the role's
/// conventional palette names that holds a valid `#rrggbb`, else the base
/// theme's color for that role.
pub proof fn law_each_role_resolves(cfg: ThemeConfig, base: Theme)
    ensures
        ({
            let p = palette_view(cfg.colors@);
            let r = resolve_spec(cfg, base);
            let pick = |field: Option<Seq<char>>, names: Seq<Seq<char>>, fallback: Color|
                match (match field {
                    Some(n) => name_color(p, n),
                    None => None,
                }) {
                    Some(c) => c,
                    None => match first_color(p, names) {
                        Some(c) => c,
                        None => fallback,
                    },
                };
            &&& r.background == pick(ui_name(cfg.ui, |u: UiConfig| u.background), seq!["bg"@], base.background)
            &&& r.text == pick(ui_name(cfg.ui, |u: UiConfig| u.text), seq!["fg"@, "text"@], base.text)
            &&& r.text_dim == pick(ui_name(cfg.ui, |u: UiConfig| u.text_dim), seq!["comment"@, "fg_dim"@, "subtext0"@], base.text_dim)
            &&& r.text_muted == pick(ui_name(cfg.ui, |u: UiConfig| u.text_muted), seq!["fg_muted"@, "overlay0"@], base.text_muted)
            &&& r.author == pick(ui_name(cfg.ui, |u: UiConfig| u.author), seq!["magenta"@, "mauve"@, "pink"@], base.author)
            &&& r.highlight == pick(ui_name(cfg.ui, |u: UiConfig| u.highlight), seq!["yellow"@, "peach"@], base.highlight)
            &&& r.link == pick(ui_name(cfg.ui, |u: UiConfig| u.link), seq!["blue"@, "sapphire"@], base.link)
            &&& r.date == pick(ui_name(cfg.ui, |u: UiConfig| u.date), seq!["green"@, "teal"@], base.date)
            &&& r.border == pick(ui_name(cfg.ui, |u: UiConfig| u.border), seq!["fg_gutter"@, "fg_muted"@, "surface1"@], base.border)
            &&& r.selection == pick(selection_field(cfg.ui), seq!["bg_highlight"@, "surface0"@, "surface1"@, "blue"@, "fg_bright"@], base.selection)
            &&& r.popup_bg == pick(ui_name(cfg.ui, |u: UiConfig| u.popup_bg), seq!["bg_dark"@, "mantle"@, "bg"@], base.popup_bg)
            &&& r.popup_border == pick(ui_name(cfg.ui, |u: UiConfig| u.popup_border), seq!["blue7"@, "lavender"@, "blue"@], base.popup_border)
            &&& r.normal_bg == pick(ui_name(cfg.ui, |u: UiConfig| u.normal_bg), seq!["blue"@, "sapphire"@], base.normal_bg)
            &&& r.insert_bg == pick(ui_name(cfg.ui, |u: UiConfig| u.insert_bg), seq!["green"@, "teal"@], base.insert_bg)
            &&& r.status_fg == pick(ui_name(cfg.ui, |u: UiConfig| u.status_fg), seq!["bg_dark1"@, "crust"@, "bg"@], base.status_fg)
        }),
{
}

} // verus!
