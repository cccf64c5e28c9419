use vstd::prelude::*;

use crate::model::opt_view;
use crate::paths::{copy_vec, path_join, path_join_str, path_join_vec};
use crate::text::{chars_of, eq_str, eq_vec, lit};
use crate::text_split::{split, split_vec};

verus! {

/// The optional settings of `config.toml`.
pub struct Config {
    pub library: Option<String>,
    pub editor: Option<String>,
    pub browser: Option<String>,
    pub theme: Option<String>,
    pub layout: Option<String>,
}

/// `a.or(b)` on optional texts, then `unwrap_or(default)`.
pub open spec fn first_of(a: Option<Seq<char>>, b: Option<Seq<char>>, default: Seq<char>) -> Seq<char> {
    match a {
        Some(x) => x,
        None => match b {
            Some(y) => y,
            None => default,
        },
    }
}

/// `shellexpand::tilde_with_context`: a leading `~` that stands alone or
/// before `/` becomes the home directory, when one is known.
pub open spec fn tilde_expand(input: Seq<char>, home: Option<Seq<char>>) -> Seq<char> {
    if input.len() > 0 && input[0] == '~' && (input.len() == 1 || input[1] == '/') {
        match home {
            Some(h) => h + input.skip(1),
            None => input,
        }
    } else {
        input
    }
}

/// Whether `out` is what `shellexpand::tilde_with_context` may give for
/// `input`: `tilde_expand` exactly, except that a `~` followed by `\` is
/// also expanded where the crate is built for Windows, so with a home
/// directory such an input comes back either unchanged or as the home
/// directory followed by the rest.
pub open spec fn tilde_outcome(input: Seq<char>, home: Option<Seq<char>>, out: Seq<char>) -> bool {
    if input.len() > 1 && input[0] == '~' && input[1] == '\\' && home is Some {
        out == input || out == home->0 + input.skip(1)
    } else {
        out == tilde_expand(input, home)
    }
}

/// Calls `shellexpand::tilde_with_context` with the given home directory.
/// A `~` at the start, followed by `/` or by nothing, is replaced by the home
/// directory; a missing home directory, or any other input, leaves the input
/// as it is. The one input that depends on the build target is a `~`
/// followed by `\`, which Windows builds also expand: for it the contract
/// allows both outcomes.
#[verifier::external_body]
fn expand_tilde(input: &str, home: &Option<String>) -> (r: String)
    ensures
        tilde_outcome(input@, opt_view(*home), r@),
{
    shellexpand::tilde_with_context(input, || home.clone()).into_owned()
}

fn or_default(a: &Option<String>, b: &Option<String>, default: &str) -> (r: String)
    ensures
        r@ == first_of(opt_view(*a), opt_view(*b), default@),
{
    match a {
        Some(x) => x.clone(),
        None => match b {
            Some(y) => y.clone(),
            None => default.to_owned(),
        },
    }
}

impl Config {
    /// A configuration with nothing set.
    pub fn empty() -> (r: Config)
        ensures
            r.library is None && r.editor is None && r.browser is None && r.theme is None
                && r.layout is None,
    {
        Config { library: None, editor: None, browser: None, theme: None, layout: None }
    }

    /// The editor command: the configured one, else `$EDITOR` (given as
    /// `env_editor`), else `vi`.
    pub fn editor(&self, env_editor: &Option<String>) -> (r: String)
        ensures
            r@ == first_of(opt_view(self.editor), opt_view(*env_editor), "vi"@),
    {
        or_default(&self.editor, env_editor, "vi")
    }

    /// The browser command: the configured one, else `$CAIRN_BROWSER` (given
    /// as `env_browser`), else `open`.
    pub fn browser(&self, env_browser: &Option<String>) -> (r: String)
        ensures
            r@ == first_of(opt_view(self.browser), opt_view(*env_browser), "open"@),
    {
        or_default(&self.browser, env_browser, "open")
    }

    /// The library directory: `$CAIRN_LIBRARY` (given as `env_library`) if
    /// set, else the configured library with `~` expanded (see
    /// `tilde_outcome`), else `Bookmarks`
    /// in the home directory (or in `.` when there is none).
    pub fn library_dir(&self, env_library: &Option<String>, home: &Option<String>) -> (r: String)
        ensures
            match env_library {
                Some(v) => r@ == v@,
                None => match &self.library {
                    Some(l) => tilde_outcome(l@, opt_view(*home), r@),
                    None => r@ == path_join(
                        match home {
                            Some(h) => h@,
                            None => "."@,
                        },
                        "Bookmarks"@,
                    ),
                },
            },
    {
        if let Some(v) = env_library {
            return v.clone();
        }
        if let Some(l) = &self.library {
            return expand_tilde(l.as_str(), home);
        }
        let base = match home {
            Some(h) => h.clone(),
            None => ".".to_owned(),
        };
        path_join_str(base.as_str(), "Bookmarks")
    }

    /// `config.toml` in the configuration directory.
    pub fn config_path(config_dir: &str) -> (r: String)
        ensures
            r@ == path_join(config_dir@, "config.toml"@),
    {
        path_join_str(config_dir, "config.toml")
    }
}

/// The components of a path as `Path::components` reports them on Unix: a
/// root for a leading `/`, a leading `.` kept as such, then every piece
/// between separators that names something.
pub open spec fn components(p: Seq<char>) -> Seq<Seq<char>> {
    let parts = split(p, seq!['/']);
    let root = if p.len() > 0 && p[0] == '/' {
        seq!["/"@]
    } else {
        seq![]
    };
    let cur = if p.len() > 0 && p[0] != '/' && parts[0] == "."@ {
        seq!["."@]
    } else {
        seq![]
    };
    root + cur + named_parts(parts)
}

/// The pieces that are neither empty nor `.`, in order.
pub open spec fn named_parts(parts: Seq<Seq<char>>) -> Seq<Seq<char>>
    decreases parts.len(),
{
    if parts.len() == 0 {
        seq![]
    } else {
        named_parts(parts.drop_last()) + if crate::paths::is_named_part(parts.last()) {
            seq![parts.last()]
        } else {
            seq![]
        }
    }
}

/// Equality of paths (`PartialEq for Path` compares components).
pub open spec fn same_path(a: Seq<char>, b: Seq<char>) -> bool {
    components(a) == components(b)
}

pub(crate) fn components_vec(p: &Vec<char>) -> (r: Vec<Vec<char>>)
    ensures
        r@.map_values(|v: Vec<char>| v@) == components(p@),
{
    let mut sep: Vec<char> = Vec::new();
    sep.push('/');
    assert(sep@ =~= seq!['/']);
    let parts = split_vec(p, &sep);
    let ghost pv = parts@.map_values(|v: Vec<char>| v@);
    proof {
        crate::text_split::lemma_split_nonempty(p@, seq!['/']);
    }
    let mut out: Vec<Vec<char>> = Vec::new();
    if p.len() > 0 && p[0] == '/' {
        out.push(lit("/"));
    }
    assert(pv[0] == parts@[0]@);
    if p.len() > 0 && p[0] != '/' && eq_str(&parts[0], ".") {
        out.push(lit("."));
    }
    let ghost head = out@.map_values(|v: Vec<char>| v@);
    assert(head =~= (if p@.len() > 0 && p@[0] == '/' {
        seq!["/"@]
    } else {
        seq![]
    }) + (if p@.len() > 0 && p@[0] != '/' && pv[0] == "."@ {
        seq!["."@]
    } else {
        seq![]
    }));
    let mut i: usize = 0;
    while i < parts.len()
        invariant
            i <= parts.len(),
            pv == parts@.map_values(|v: Vec<char>| v@),
            out@.map_values(|v: Vec<char>| v@) == head + named_parts(pv.take(i as int)),
        decreases parts.len() - i,
    {
        assert(pv.take(i + 1).drop_last() =~= pv.take(i as int));
        assert(pv[i as int] == parts@[i as int]@);
        let ghost before = out@.map_values(|v: Vec<char>| v@);
        if parts[i].len() > 0 && !eq_str(&parts[i], ".") {
            out.push(copy_vec(&parts[i]));
            assert(out@.map_values(|v: Vec<char>| v@) =~= before.push(pv[i as int]));
        } else {
            assert(before + Seq::<Seq<char>>::empty() =~= before);
        }
        i += 1;
    }
    assert(pv.take(parts.len() as int) =~= pv);
    out
}

pub(crate) fn eq_vecs(a: &Vec<Vec<char>>, b: &Vec<Vec<char>>) -> (r: bool)
    ensures
        r == (a@.map_values(|v: Vec<char>| v@) == b@.map_values(|v: Vec<char>| v@)),
{
    let ghost av = a@.map_values(|v: Vec<char>| v@);
    let ghost bv = b@.map_values(|v: Vec<char>| v@);
    if a.len() != b.len() {
        assert(av.len() != bv.len());
        return false;
    }
    let mut i: usize = 0;
    while i < a.len()
        invariant
            i <= a.len(),
            a.len() == b.len(),
            av == a@.map_values(|v: Vec<char>| v@),
            bv == b@.map_values(|v: Vec<char>| v@),
            forall|j: int| 0 <= j < i ==> av[j] == bv[j],
        decreases a.len() - i,
    {
        if !eq_vec(&a[i], &b[i]) {
            assert(av[i as int] != bv[i as int]);
            return false;
        }
        i += 1;
    }
    assert(av =~= bv);
    true
}

fn same_path_exec(a: &Vec<char>, b: &Vec<char>) -> (r: bool)
    ensures
        r == same_path(a@, b@),
{
    eq_vecs(&components_vec(a), &components_vec(b))
}

pub open spec fn strs_view(v: Seq<String>) -> Seq<Seq<char>> {
    v.map_values(|s: String| s@)
}

/// Where the configuration directory may be, most preferred first:
/// `$XDG_CONFIG_HOME/cairn`, `~/.config/cairn`, then the platform's own
/// configuration directory with `cairn`, unless that is the same path as one
/// already listed.
pub open spec fn candidates_spec(xdg: Option<Seq<char>>, home: Option<Seq<char>>, native: Option<Seq<char>>) -> Seq<Seq<char>> {
    let a = match xdg {
        Some(x) => seq![path_join(x, "cairn"@)],
        None => seq![],
    };
    let b = match home {
        Some(h) => seq![path_join(path_join(h, ".config"@), "cairn"@)],
        None => seq![],
    };
    let ab = a + b;
    match native {
        Some(n) => add_unless_listed(ab, path_join(n, "cairn"@)),
        None => ab,
    }
}

/// `list` with `c` added at the end, unless it already holds the same path.
pub open spec fn add_unless_listed(list: Seq<Seq<char>>, c: Seq<char>) -> Seq<Seq<char>> {
    if exists|i: int| 0 <= i < list.len() && same_path(#[trigger] list[i], c) {
        list
    } else {
        list.push(c)
    }
}

/// The candidate configuration directories, given the environment's
/// `XDG_CONFIG_HOME`, the home directory and the platform's configuration
/// directory.
pub fn config_dir_candidates(xdg: &Option<String>, home: &Option<String>, native: &Option<String>) -> (r: Vec<String>)
    ensures
        strs_view(r@) == candidates_spec(opt_view(*xdg), opt_view(*home), opt_view(*native)),
{
    let mut out: Vec<Vec<char>> = Vec::new();
    if let Some(x) = xdg {
        out.push(path_join_vec(&chars_of(x.as_str()), &lit("cairn")));
    }
    if let Some(h) = home {
        let c = path_join_vec(&chars_of(h.as_str()), &lit(".config"));
        out.push(path_join_vec(&c, &lit("cairn")));
    }
    let ghost ab = out@.map_values(|v: Vec<char>| v@);
    assert(ab =~= (match opt_view(*xdg) {
        Some(x) => seq![path_join(x, "cairn"@)],
        None => seq![],
    }) + (match opt_view(*home) {
        Some(h) => seq![path_join(path_join(h, ".config"@), "cairn"@)],
        None => seq![],
    }));
    if let Some(n) = native {
        let c = path_join_vec(&chars_of(n.as_str()), &lit("cairn"));
        let mut found = false;
        let mut i: usize = 0;
        while i < out.len()
            invariant
                i <= out.len(),
                ab == out@.map_values(|v: Vec<char>| v@),
                !found ==> forall|j: int| 0 <= j < i ==> !same_path(ab[j], c@),
                found ==> exists|j: int| 0 <= j < ab.len() && same_path(#[trigger] ab[j], c@),
            decreases out.len() - i,
        {
            assert(ab[i as int] == out@[i as int]@);
            if same_path_exec(&out[i], &c) {
                found = true;
            }
            i += 1;
        }
        if !found {
            out.push(c);
            assert(out@.map_values(|v: Vec<char>| v@) =~= ab.push(c@));
            assert(!exists|j: int| 0 <= j < ab.len() && same_path(#[trigger] ab[j], c@));
        } else {
            let ghost j = choose|j: int| 0 <= j < ab.len() && same_path(#[trigger] ab[j], c@);
            assert(same_path(ab[j], c@));
        }
        assert(c@ == path_join(native->0@, "cairn"@));
        assert(out@.map_values(|v: Vec<char>| v@) == add_unless_listed(ab, c@));
        assert(out@.map_values(|v: Vec<char>| v@) == candidates_spec(
            opt_view(*xdg),
            opt_view(*home),
            opt_view(*native),
        ));
    } else {
        assert(out@.map_values(|v: Vec<char>| v@) == candidates_spec(
            opt_view(*xdg),
            opt_view(*home),
            opt_view(*native),
        ));
    }
    let r = crate::text_split::vecs_to_strings(&out);
    r
}

/// The configuration directory: the first candidate that exists, else the
/// first candidate, else `.`. `exists[i]` tells whether `candidates[i]`
/// exists.
pub fn config_dir(candidates: &Vec<String>, exists: &Vec<bool>) -> (r: String)
    requires
        exists.len() == candidates.len(),
    ensures
        (exists|i: int| 0 <= i < exists.len() && exists@[i]) ==> exists|i: int|
            0 <= i < exists.len() && exists@[i] && r@ == candidates@[i]@ && forall|j: int|
                0 <= j < i ==> !exists@[j],
        (forall|i: int| 0 <= i < exists.len() ==> !exists@[i]) ==> r@ == if candidates.len() > 0 {
            candidates@[0]@
        } else {
            "."@
        },
{
    let mut i: usize = 0;
    while i < candidates.len()
        invariant
            i <= candidates.len(),
            exists.len() == candidates.len(),
            forall|j: int| 0 <= j < i ==> !exists@[j],
        decreases candidates.len() - i,
    {
        if exists[i] {
            return candidates[i].clone();
        }
        i += 1;
    }
    if candidates.len() > 0 {
        candidates[0].clone()
    } else {
        ".".to_owned()
    }
}

} // verus!
