use vstd::prelude::*;

verus! {

/// A saved bookmark: what `info.toml` in a bookmark's directory holds.
#[derive(Debug)]
pub struct Bookmark {
    pub url: String,
    pub title: String,
    pub description: Option<String>,
    pub authors: Vec<String>,
    pub site: Option<String>,
    pub year: Option<u16>,
    pub tags: Vec<String>,
    pub added: Option<String>,
    pub files: Vec<String>,
    pub preview: Option<String>,
}

/// The mathematical value of a [`Bookmark`]: each text as its characters.
pub struct BookmarkView {
    pub url: Seq<char>,
    pub title: Seq<char>,
    pub description: Option<Seq<char>>,
    pub authors: Seq<Seq<char>>,
    pub site: Option<Seq<char>>,
    pub year: Option<u16>,
    pub tags: Seq<Seq<char>>,
    pub added: Option<Seq<char>>,
    pub files: Seq<Seq<char>>,
    pub preview: Option<Seq<char>>,
}

/// The characters of an optional string.
pub open spec fn opt_view(o: Option<String>) -> Option<Seq<char>> {
    match o {
        Some(s) => Some(s@),
        None => None,
    }
}

/// The characters of each string of a list.
pub open spec fn strs_view(v: Vec<String>) -> Seq<Seq<char>> {
    v@.map_values(|s: String| s@)
}

impl View for Bookmark {
    type V = BookmarkView;

    open spec fn view(&self) -> BookmarkView {
        BookmarkView {
            url: self.url@,
            title: self.title@,
            description: opt_view(self.description),
            authors: strs_view(self.authors),
            site: opt_view(self.site),
            year: self.year,
            tags: strs_view(self.tags),
            added: opt_view(self.added),
            files: strs_view(self.files),
            preview: opt_view(self.preview),
        }
    }
}

/// A copy of an optional string.
pub fn copy_opt(o: &Option<String>) -> (r: Option<String>)
    ensures
        opt_view(r) == opt_view(*o),
{
    match o {
        Some(s) => Some(s.clone()),
        None => None,
    }
}

/// A copy of a list of strings.
pub fn copy_strs(v: &Vec<String>) -> (r: Vec<String>)
    ensures
        strs_view(r) == strs_view(*v),
{
    let mut out: Vec<String> = Vec::new();
    let mut i: usize = 0;
    while i < v.len()
        invariant
            i <= v.len(),
            out.len() == i,
            forall|j: int| 0 <= j < i ==> (#[trigger] out@[j])@ == v@[j]@,
        decreases v.len() - i,
    {
        out.push(v[i].clone());
        i += 1;
    }
    assert(strs_view(out) =~= strs_view(*v));
    out
}

impl Bookmark {
    /// A field-by-field copy of the bookmark.
    pub fn copy(&self) -> (r: Bookmark)
        ensures
            r@ == self@,
    {
        Bookmark {
            url: self.url.clone(),
            title: self.title.clone(),
            description: copy_opt(&self.description),
            authors: copy_strs(&self.authors),
            site: copy_opt(&self.site),
            year: self.year,
            tags: copy_strs(&self.tags),
            added: copy_opt(&self.added),
            files: copy_strs(&self.files),
            preview: copy_opt(&self.preview),
        }
    }
}

} // verus!
