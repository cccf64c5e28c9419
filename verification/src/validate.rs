use vstd::prelude::*;

use crate::model::{strs_view, Bookmark, BookmarkView};
use crate::text::{append_str, append_vec, chars_of, decimal, lit, push_decimal, string_of};

verus! {

/// What checking a library found.
pub struct ValidateResult {
    pub total: usize,
    pub fixed: usize,
    pub issues: Vec<String>,
}

/// The one-line summary of a check.
pub open spec fn summary_spec(total: nat, fixed: nat, n_issues: nat) -> Seq<char> {
    if n_issues == 0 && fixed == 0 {
        "Library OK — "@ + decimal(total) + " bookmarks"@
    } else if fixed > 0 && n_issues == 0 {
        "Fixed "@ + decimal(fixed) + " issues"@
    } else if fixed > 0 {
        decimal(n_issues + fixed) + " issues, fixed "@ + decimal(fixed)
    } else {
        decimal(n_issues) + " issues found"@
    }
}

impl ValidateResult {
    pub fn summary(&self) -> (r: String)
        ensures
            r@ == summary_spec(self.total as nat, self.fixed as nat, self.issues.len() as nat),
    {
        let mut out: Vec<char> = Vec::new();
        let n = self.issues.len();
        if n == 0 && self.fixed == 0 {
            append_str(&mut out, "Library OK — ");
            push_decimal(&mut out, self.total as u128);
            append_str(&mut out, " bookmarks");
        } else if self.fixed > 0 && n == 0 {
            append_str(&mut out, "Fixed ");
            push_decimal(&mut out, self.fixed as u128);
            append_str(&mut out, " issues");
        } else if self.fixed > 0 {
            push_decimal(&mut out, n as u128 + self.fixed as u128);
            append_str(&mut out, " issues, fixed ");
            push_decimal(&mut out, self.fixed as u128);
        } else {
            push_decimal(&mut out, n as u128);
            append_str(&mut out, " issues found");
        }
        assert(out@ =~= summary_spec(self.total as nat, self.fixed as nat, self.issues.len() as nat));
        string_of(&out)
    }
}

/// What was read of one bookmark directory: its name, its `info.toml` (or
/// the error reading it gave), whether each file that it lists exists, and
/// whether its preview exists.
pub struct DirRecord {
    pub dir_name: String,
    pub info: Result<Bookmark, String>,
    pub files_exist: Vec<bool>,
    pub preview_exists: bool,
}

/// A record whose `files_exist` matches the files that its bookmark lists.
pub open spec fn record_wf(r: DirRecord) -> bool {
    match r.info {
        Ok(b) => r.files_exist.len() == b.files.len(),
        Err(_) => true,
    }
}

/// The issues that listing files of a bookmark shows, for the first `n` files.
pub open spec fn file_issues(name: Seq<char>, files: Seq<Seq<char>>, exist: Seq<bool>, n: int) -> Seq<Seq<char>>
    decreases n,
{
    if n <= 0 {
        seq![]
    } else {
        file_issues(name, files, exist, n - 1) + if exist[n - 1] {
            seq![]
        } else {
            seq!["listed but missing: "@ + name + seq!['/'] + files[n - 1]]
        }
    }
}

/// The issues of one bookmark directory, in the order they are reported.
pub open spec fn record_issues(name: Seq<char>, info: Result<BookmarkView, Seq<char>>, files_exist: Seq<bool>, preview_exists: bool, fix: bool) -> Seq<Seq<char>> {
    match info {
        Err(e) => seq!["unreadable info.toml: "@ + name + ": "@ + e],
        Ok(b) => (if b.url.len() == 0 {
            seq!["missing url: "@ + name]
        } else {
            seq![]
        }) + (if b.title.len() == 0 {
            seq!["missing title: "@ + name]
        } else {
            seq![]
        }) + (if b.added is None && !fix {
            seq!["missing added date: "@ + name]
        } else {
            seq![]
        }) + file_issues(name, b.files, files_exist, b.files.len() as int) + match b.preview {
            Some(p) => if preview_exists {
                seq![]
            } else {
                seq!["preview missing: "@ + name + seq!['/'] + p]
            },
            None => seq![],
        },
    }
}

pub open spec fn info_view(i: Result<Bookmark, String>) -> Result<BookmarkView, Seq<char>> {
    match i {
        Ok(b) => Ok(b@),
        Err(e) => Err(e@),
    }
}

/// All issues of the first `n` records.
pub open spec fn all_issues(recs: Seq<DirRecord>, fix: bool, n: int) -> Seq<Seq<char>>
    decreases n,
{
    if n <= 0 {
        seq![]
    } else {
        let r = recs[n - 1];
        all_issues(recs, fix, n - 1) + record_issues(
            r.dir_name@,
            info_view(r.info),
            r.files_exist@,
            r.preview_exists,
            fix,
        )
    }
}

/// Whether the record is of a readable bookmark without an added date: the
/// issue that `--fix` repairs.
pub open spec fn needs_added(r: DirRecord) -> bool {
    r.info matches Ok(b) && b.added is None
}

/// How many of the first `n` records need an added date.
pub open spec fn count_missing_added(recs: Seq<DirRecord>, n: int) -> nat
    decreases n,
{
    if n <= 0 {
        0
    } else {
        count_missing_added(recs, n - 1) + if needs_added(recs[n - 1]) {
            1nat
        } else {
            0nat
        }
    }
}

/// The outcome of checking a library: the report, and, when fixing, the
/// bookmarks to write back (by record index) with their added date set.
pub struct Validation {
    pub result: ValidateResult,
    pub rewrites: Vec<(usize, Bookmark)>,
}

/// The bookmark with its added date set to `today`.
pub open spec fn with_added(b: BookmarkView, today: Seq<char>) -> BookmarkView {
    BookmarkView { added: Some(today), ..b }
}

fn push_issue(issues: &mut Vec<String>, v: &Vec<char>)
    ensures
        strs_view(*final(issues)) == strs_view(*old(issues)).push(v@),
{
    let ghost before = strs_view(*issues);
    issues.push(string_of(v));
    assert(strs_view(*issues) =~= before.push(v@));
}

fn file_issues_exec(issues: &mut Vec<String>, name: &Vec<char>, files: &Vec<String>, exist: &Vec<bool>)
    requires
        exist.len() == files.len(),
    ensures
        strs_view(*final(issues)) == strs_view(*old(issues)) + file_issues(
            name@,
            strs_view(*files),
            exist@,
            files.len() as int,
        ),
{
    let ghost start = strs_view(*issues);
    let mut i: usize = 0;
    while i < files.len()
        invariant
            i <= files.len(),
            exist.len() == files.len(),
            strs_view(*issues) == start + file_issues(name@, strs_view(*files), exist@, i as int),
        decreases files.len() - i,
    {
        let ghost fi = file_issues(name@, strs_view(*files), exist@, i as int);
        assert(strs_view(*files)[i as int] == files@[i as int]@);
        if !exist[i] {
            let mut v = lit("listed but missing: ");
            append_vec(&mut v, name);
            v.push('/');
            append_str(&mut v, files[i].as_str());
            assert(v@ =~= "listed but missing: "@ + name@ + seq!['/'] + files@[i as int]@);
            push_issue(issues, &v);
            assert(file_issues(name@, strs_view(*files), exist@, i + 1) == fi + seq![v@]);
        } else {
            assert(file_issues(name@, strs_view(*files), exist@, i + 1) =~= fi);
        }
        i += 1;
        assert(strs_view(*issues) =~= start + file_issues(name@, strs_view(*files), exist@, i as int));
    }
}

fn record_issues_exec(issues: &mut Vec<String>, rec: &DirRecord, fix: bool)
    requires
        record_wf(*rec),
    ensures
        strs_view(*final(issues)) == strs_view(*old(issues)) + record_issues(
            rec.dir_name@,
            info_view(rec.info),
            rec.files_exist@,
            rec.preview_exists,
            fix,
        ),
{
    let name = chars_of(rec.dir_name.as_str());
    let ghost before = strs_view(*issues);
    match &rec.info {
        Err(e) => {
            let mut v = lit("unreadable info.toml: ");
            append_vec(&mut v, &name);
            append_str(&mut v, ": ");
            append_str(&mut v, e.as_str());
            push_issue(issues, &v);
            assert(strs_view(*issues) =~= before + seq!["unreadable info.toml: "@ + name@ + ": "@ + e@]);
        },
        Ok(b) => {
            let ghost bv = b@;
            if b.url.as_str().is_empty() {
                let mut v = lit("missing url: ");
                append_vec(&mut v, &name);
                push_issue(issues, &v);
            }
            let ghost s1 = strs_view(*issues);
            assert(s1 =~= before + (if bv.url.len() == 0 {
                seq!["missing url: "@ + name@]
            } else {
                seq![]
            }));
            if b.title.as_str().is_empty() {
                let mut v = lit("missing title: ");
                append_vec(&mut v, &name);
                push_issue(issues, &v);
            }
            let ghost s2 = strs_view(*issues);
            assert(s2 =~= s1 + (if bv.title.len() == 0 {
                seq!["missing title: "@ + name@]
            } else {
                seq![]
            }));
            if b.added.is_none() && !fix {
                let mut v = lit("missing added date: ");
                append_vec(&mut v, &name);
                push_issue(issues, &v);
            }
            let ghost s3 = strs_view(*issues);
            assert(s3 =~= s2 + (if bv.added is None && !fix {
                seq!["missing added date: "@ + name@]
            } else {
                seq![]
            }));
            file_issues_exec(issues, &name, &b.files, &rec.files_exist);
            let ghost s4 = strs_view(*issues);
            if let Some(p) = &b.preview {
                if !rec.preview_exists {
                    let mut v = lit("preview missing: ");
                    append_vec(&mut v, &name);
                    v.push('/');
                    append_str(&mut v, p.as_str());
                    assert(v@ =~= "preview missing: "@ + name@ + seq!['/'] + p@);
                    push_issue(issues, &v);
                }
            }
            assert(strs_view(*issues) =~= s4 + match bv.preview {
                Some(p) => if rec.preview_exists {
                    seq![]
                } else {
                    seq!["preview missing: "@ + name@ + seq!['/'] + p]
                },
                None => seq![],
            });
        },
    }
}

/// Checks each bookmark directory: an unreadable `info.toml`, a missing URL,
/// title or added date (when not fixing), listed files or a preview that do
/// not exist. When `fix` is set, a missing added date is set to `today`
/// instead of being reported.
pub fn validate(records: &Vec<DirRecord>, fix: bool, today: &str) -> (r: Validation)
    requires
        forall|i: int| 0 <= i < records.len() ==> record_wf(#[trigger] records@[i]),
    ensures
        r.result.total == records.len(),
        strs_view(r.result.issues) == all_issues(records@, fix, records.len() as int),
        r.result.fixed == if fix {
            count_missing_added(records@, records.len() as int)
        } else {
            0
        },
        fix ==> r.rewrites.len() == r.result.fixed,
        !fix ==> r.rewrites.len() == 0,
        forall|k: int|
            0 <= k < r.rewrites.len() ==> {
                let (idx, b) = #[trigger] r.rewrites@[k];
                &&& idx < records.len()
                &&& records@[idx as int].info matches Ok(orig) && orig@.added is None && b@
                    == with_added(orig@, today@)
            },
        forall|k1: int, k2: int|
            0 <= k1 < k2 < r.rewrites.len() ==> (#[trigger] r.rewrites@[k1]).0 < (
            #[trigger] r.rewrites@[k2]).0,
{
    let mut issues: Vec<String> = Vec::new();
    let mut rewrites: Vec<(usize, Bookmark)> = Vec::new();
    let mut fixed: usize = 0;
    let mut i: usize = 0;
    assert(strs_view(issues) =~= Seq::<Seq<char>>::empty());
    while i < records.len()
        invariant
            i <= records.len(),
            forall|j: int| 0 <= j < records.len() ==> record_wf(#[trigger] records@[j]),
            strs_view(issues) == all_issues(records@, fix, i as int),
            fixed == if fix {
                count_missing_added(records@, i as int)
            } else {
                0
            },
            fixed <= i,
            fix ==> rewrites.len() == fixed,
            !fix ==> rewrites.len() == 0,
            forall|k: int|
                0 <= k < rewrites.len() ==> {
                    let (idx, b) = #[trigger] rewrites@[k];
                    &&& idx < records.len()
                    &&& records@[idx as int].info matches Ok(orig) && orig@.added is None && b@
                        == with_added(orig@, today@)
                },
            forall|k: int| 0 <= k < rewrites.len() ==> (#[trigger] rewrites@[k]).0 < i,
            forall|k1: int, k2: int|
                0 <= k1 < k2 < rewrites.len() ==> (#[trigger] rewrites@[k1]).0 < (
                #[trigger] rewrites@[k2]).0,
        decreases records.len() - i,
    {
        let rec = &records[i];
        assert(record_wf(records@[i as int]));
        record_issues_exec(&mut issues, rec, fix);
        if fix {
            if let Ok(b) = &rec.info {
                if b.added.is_none() {
                    let mut updated = b.copy();
                    updated.added = Some(today.to_owned());
                    assert(updated@ == with_added(b@, today@));
                    rewrites.push((i, updated));
                    fixed += 1;
                }
            }
        }
        i += 1;
    }
    Validation { result: ValidateResult { total: records.len(), fixed, issues }, rewrites }
}

/// A bookmark repaired by `--fix` needs no further repair, and checking it
/// again without fixing reports exactly what the fixing check reported.
pub proof fn law_fix_then_check(
    name: Seq<char>,
    b: BookmarkView,
    today: Seq<char>,
    files_exist: Seq<bool>,
    preview_exists: bool,
)
    ensures
        with_added(b, today).added is Some,
        record_issues(name, Ok(with_added(b, today)), files_exist, preview_exists, false)
            == record_issues(name, Ok(b), files_exist, preview_exists, true),
{
}

} // verus!
