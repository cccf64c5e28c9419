use vstd::prelude::*;

use crate::model::{copy_opt, opt_view, strs_view, Bookmark};
use crate::text_split::{join, join_strings};

verus! {

/// The row that the search index holds for a bookmark: its directory name,
/// its fields, and the lists joined into text (authors by `; `, tags and
/// files by `, `).
pub struct IndexRow {
    pub dir_name: String,
    pub url: String,
    pub title: String,
    pub description: Option<String>,
    pub authors: String,
    pub site: Option<String>,
    pub year: Option<u16>,
    pub tags: String,
    pub added: Option<String>,
    pub files: String,
}

pub fn index_row(dir_name: &str, b: &Bookmark) -> (r: IndexRow)
    ensures
        r.dir_name@ == dir_name@,
        r.url@ == b.url@,
        r.title@ == b.title@,
        opt_view(r.description) == opt_view(b.description),
        r.authors@ == join(strs_view(b.authors), "; "@),
        opt_view(r.site) == opt_view(b.site),
        r.year == b.year,
        r.tags@ == join(strs_view(b.tags), ", "@),
        opt_view(r.added) == opt_view(b.added),
        r.files@ == join(strs_view(b.files), ", "@),
{
    IndexRow {
        dir_name: dir_name.to_owned(),
        url: b.url.clone(),
        title: b.title.clone(),
        description: copy_opt(&b.description),
        authors: join_strings(&b.authors, "; "),
        site: copy_opt(&b.site),
        year: b.year,
        tags: join_strings(&b.tags, ", "),
        added: copy_opt(&b.added),
        files: join_strings(&b.files, ", "),
    }
}

} // verus!
