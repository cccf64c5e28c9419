use vstd::prelude::*;

use crate::text::{
    append_str, append_vec, chars_of, lit, replace_char, replace_char_vec, starts_with, string_of,
    trim, trim_vec,
};
use crate::text_split::{lines, lines_vec, splitn, splitn_vec};

verus! {

// Apple Notes is driven through AppleScript. The functions named after each
// operation build the script that performs it; the parse functions read what
// `osascript` printed for the listing scripts, and the outcome functions
// (`script_output`, `notes_listed`, `note_read`, `folders_listed`,
// `script_done`) say what a run comes to from its exit status and output.

/// A note of Apple Notes.
pub struct Note {
    pub id: String,
    pub name: String,
    pub folder: String,
    pub body: String,
}

pub struct NoteView {
    pub id: Seq<char>,
    pub name: Seq<char>,
    pub folder: Seq<char>,
    pub body: Seq<char>,
}

impl View for Note {
    type V = NoteView;

    open spec fn view(&self) -> NoteView {
        NoteView { id: self.id@, name: self.name@, folder: self.folder@, body: self.body@ }
    }
}

pub open spec fn opt_str(o: Option<&str>) -> Option<Seq<char>> {
    match o {
        Some(s) => Some(s@),
        None => None,
    }
}

/// Text made safe inside an AppleScript string literal: backslashes doubled,
/// then double quotes escaped.
pub open spec fn escape_spec(s: Seq<char>) -> Seq<char> {
    replace_char(replace_char(s, '\\', "\\\\"@), '"', "\\\""@)
}

pub fn escape_applescript(s: &str) -> (r: String)
    ensures
        r@ == escape_spec(s@),
{
    string_of(&escape_vec(&chars_of(s)))
}

fn escape_vec(s: &Vec<char>) -> (r: Vec<char>)
    ensures
        r@ == escape_spec(s@),
{
    let a = replace_char_vec(s, '\\', &lit("\\\\"));
    replace_char_vec(&a, '"', &lit("\\\""))
}

/// A note body as the HTML that Notes stores: line breaks become `<br>`,
/// then the text is escaped.
pub open spec fn html_body_spec(body: Seq<char>) -> Seq<char> {
    escape_spec(replace_char(body, '\n', "<br>"@))
}

fn html_body_vec(body: &str) -> (r: Vec<char>)
    ensures
        r@ == html_body_spec(body@),
{
    escape_vec(&replace_char_vec(&chars_of(body), '\n', &lit("<br>")))
}

/// The script text of `list_notes`, around what is put in it.
pub open spec fn list_notes_script(folder_loop: Seq<char>) -> Seq<char> {
    "tell application \"Notes\"\n            set output to {}\n            repeat with f in "@ + folder_loop + "\n                set folderName to name of f\n                if folderName is not \"Recently Deleted\" then\n                    set noteIds to id of every note of f\n                    set noteNames to name of every note of f\n                    repeat with j from 1 to count of noteIds\n                        set end of output to folderName & \"|||\" & (item j of noteIds) & \"|||\" & (item j of noteNames)\n                    end repeat\n                end if\n            end repeat\n            set AppleScript's text item delimiters to \"\\n\"\n            return output as text\n        end tell"@
}

fn list_notes_text(folder_loop: &Vec<char>) -> (r: Vec<char>)
    ensures
        r@ == list_notes_script(folder_loop@),
{
    let mut out = lit("tell application \"Notes\"\n            set output to {}\n            repeat with f in ");
    append_vec(&mut out, folder_loop);
    append_str(&mut out, "\n                set folderName to name of f\n                if folderName is not \"Recently Deleted\" then\n                    set noteIds to id of every note of f\n                    set noteNames to name of every note of f\n                    repeat with j from 1 to count of noteIds\n                        set end of output to folderName & \"|||\" & (item j of noteIds) & \"|||\" & (item j of noteNames)\n                    end repeat\n                end if\n            end repeat\n            set AppleScript's text item delimiters to \"\\n\"\n            return output as text\n        end tell");
    assert(out@ =~= list_notes_script(folder_loop@));
    out
}

/// The script text of `get_note`, around what is put in it.
pub open spec fn get_note_script(escaped: Seq<char>) -> Seq<char> {
    "tell application \"Notes\"\n            repeat with f in every folder\n                set folderName to name of f\n                if folderName is not \"Recently Deleted\" then\n                    set matched to (every note of f whose name contains \""@ + escaped + "\")\n                    if (count of matched) > 0 then\n                        set n to item 1 of matched\n                        return folderName & \"|||\" & (id of n) & \"|||\" & (name of n) & \"|||\" & (plaintext of n)\n                    end if\n                end if\n            end repeat\n            error \"No note found matching: "@ + escaped + "\"\n        end tell"@
}

fn get_note_text(escaped: &Vec<char>) -> (r: Vec<char>)
    ensures
        r@ == get_note_script(escaped@),
{
    let mut out = lit("tell application \"Notes\"\n            repeat with f in every folder\n                set folderName to name of f\n                if folderName is not \"Recently Deleted\" then\n                    set matched to (every note of f whose name contains \"");
    append_vec(&mut out, escaped);
    append_str(&mut out, "\")\n                    if (count of matched) > 0 then\n                        set n to item 1 of matched\n                        return folderName & \"|||\" & (id of n) & \"|||\" & (name of n) & \"|||\" & (plaintext of n)\n                    end if\n                end if\n            end repeat\n            error \"No note found matching: ");
    append_vec(&mut out, escaped);
    append_str(&mut out, "\"\n        end tell");
    assert(out@ =~= get_note_script(escaped@));
    out
}

/// The script text of `search_notes`, around what is put in it.
pub open spec fn search_notes_script(escaped: Seq<char>) -> Seq<char> {
    "tell application \"Notes\"\n            set output to {}\n            repeat with f in every folder\n                set folderName to name of f\n                if folderName is not \"Recently Deleted\" then\n                    set matched to (every note of f whose name contains \""@ + escaped + "\")\n                    set noteIds to id of matched\n                    set noteNames to name of matched\n                    repeat with j from 1 to count of noteIds\n                        set end of output to folderName & \"|||\" & (item j of noteIds) & \"|||\" & (item j of noteNames)\n                    end repeat\n                end if\n            end repeat\n            set AppleScript's text item delimiters to \"\\n\"\n            return output as text\n        end tell"@
}

fn search_notes_text(escaped: &Vec<char>) -> (r: Vec<char>)
    ensures
        r@ == search_notes_script(escaped@),
{
    let mut out = lit("tell application \"Notes\"\n            set output to {}\n            repeat with f in every folder\n                set folderName to name of f\n                if folderName is not \"Recently Deleted\" then\n                    set matched to (every note of f whose name contains \"");
    append_vec(&mut out, escaped);
    append_str(&mut out, "\")\n                    set noteIds to id of matched\n                    set noteNames to name of matched\n                    repeat with j from 1 to count of noteIds\n                        set end of output to folderName & \"|||\" & (item j of noteIds) & \"|||\" & (item j of noteNames)\n                    end repeat\n                end if\n            end repeat\n            set AppleScript's text item delimiters to \"\\n\"\n            return output as text\n        end tell");
    assert(out@ =~= search_notes_script(escaped@));
    out
}

/// The script text of `create_note`, around what is put in it.
pub open spec fn create_note_script(folder_target: Seq<char>, escaped_title: Seq<char>, html_body: Seq<char>) -> Seq<char> {
    "tell application \"Notes\"\n            make new note "@ + folder_target + " with properties {name:\""@ + escaped_title + "\", body:\""@ + html_body + "\"}\n        end tell"@
}

fn create_note_text(folder_target: &Vec<char>, escaped_title: &Vec<char>, html_body: &Vec<char>) -> (r: Vec<char>)
    ensures
        r@ == create_note_script(folder_target@, escaped_title@, html_body@),
{
    let mut out = lit("tell application \"Notes\"\n            make new note ");
    append_vec(&mut out, folder_target);
    append_str(&mut out, " with properties {name:\"");
    append_vec(&mut out, escaped_title);
    append_str(&mut out, "\", body:\"");
    append_vec(&mut out, html_body);
    append_str(&mut out, "\"}\n        end tell");
    assert(out@ =~= create_note_script(folder_target@, escaped_title@, html_body@));
    out
}

/// The script text of `update_note`, around what is put in it.
pub open spec fn update_note_script(escaped_name: Seq<char>, escaped_title: Seq<char>, html_body: Seq<char>) -> Seq<char> {
    "tell application \"Notes\"\n            set matchedNotes to (every note whose name contains \""@ + escaped_name + "\")\n            if (count of matchedNotes) is 0 then\n                error \"No note found matching: "@ + escaped_name + "\"\n            end if\n            set n to item 1 of matchedNotes\n            set body of n to \"<h1>"@ + escaped_title + "</h1><br>"@ + html_body + "\"\n        end tell"@
}

fn update_note_text(escaped_name: &Vec<char>, escaped_title: &Vec<char>, html_body: &Vec<char>) -> (r: Vec<char>)
    ensures
        r@ == update_note_script(escaped_name@, escaped_title@, html_body@),
{
    let mut out = lit("tell application \"Notes\"\n            set matchedNotes to (every note whose name contains \"");
    append_vec(&mut out, escaped_name);
    append_str(&mut out, "\")\n            if (count of matchedNotes) is 0 then\n                error \"No note found matching: ");
    append_vec(&mut out, escaped_name);
    append_str(&mut out, "\"\n            end if\n            set n to item 1 of matchedNotes\n            set body of n to \"<h1>");
    append_vec(&mut out, escaped_title);
    append_str(&mut out, "</h1><br>");
    append_vec(&mut out, html_body);
    append_str(&mut out, "\"\n        end tell");
    assert(out@ =~= update_note_script(escaped_name@, escaped_title@, html_body@));
    out
}

/// The script text of `move_note`, around what is put in it.
pub open spec fn move_note_script(escaped_name: Seq<char>, escaped_folder: Seq<char>) -> Seq<char> {
    "tell application \"Notes\"\n            set matchedNotes to (every note whose name contains \""@ + escaped_name + "\")\n            if (count of matchedNotes) is 0 then\n                error \"No note found matching: "@ + escaped_name + "\"\n            end if\n            move item 1 of matchedNotes to folder \""@ + escaped_folder + "\"\n        end tell"@
}

fn move_note_text(escaped_name: &Vec<char>, escaped_folder: &Vec<char>) -> (r: Vec<char>)
    ensures
        r@ == move_note_script(escaped_name@, escaped_folder@),
{
    let mut out = lit("tell application \"Notes\"\n            set matchedNotes to (every note whose name contains \"");
    append_vec(&mut out, escaped_name);
    append_str(&mut out, "\")\n            if (count of matchedNotes) is 0 then\n                error \"No note found matching: ");
    append_vec(&mut out, escaped_name);
    append_str(&mut out, "\"\n            end if\n            move item 1 of matchedNotes to folder \"");
    append_vec(&mut out, escaped_folder);
    append_str(&mut out, "\"\n        end tell");
    assert(out@ =~= move_note_script(escaped_name@, escaped_folder@));
    out
}

/// The script text of `delete_note`, around what is put in it.
pub open spec fn delete_note_script(escaped_name: Seq<char>) -> Seq<char> {
    "tell application \"Notes\"\n            set matchedNotes to (every note whose name contains \""@ + escaped_name + "\")\n            if (count of matchedNotes) is 0 then\n                error \"No note found matching: "@ + escaped_name + "\"\n            end if\n            delete item 1 of matchedNotes\n        end tell"@
}

fn delete_note_text(escaped_name: &Vec<char>) -> (r: Vec<char>)
    ensures
        r@ == delete_note_script(escaped_name@),
{
    let mut out = lit("tell application \"Notes\"\n            set matchedNotes to (every note whose name contains \"");
    append_vec(&mut out, escaped_name);
    append_str(&mut out, "\")\n            if (count of matchedNotes) is 0 then\n                error \"No note found matching: ");
    append_vec(&mut out, escaped_name);
    append_str(&mut out, "\"\n            end if\n            delete item 1 of matchedNotes\n        end tell");
    assert(out@ =~= delete_note_script(escaped_name@));
    out
}

/// The script text of `list_folders`, around what is put in it.
pub open spec fn list_folders_script() -> Seq<char> {
    "tell application \"Notes\"\n            set output to {}\n            repeat with f in every folder\n                if name of f is not \"Recently Deleted\" then\n                    set end of output to name of f\n                end if\n            end repeat\n            set AppleScript's text item delimiters to \"\\n\"\n            return output as text\n        end tell"@
}

fn list_folders_text() -> (r: Vec<char>)
    ensures
        r@ == list_folders_script(),
{
    let mut out = lit("tell application \"Notes\"\n            set output to {}\n            repeat with f in every folder\n                if name of f is not \"Recently Deleted\" then\n                    set end of output to name of f\n                end if\n            end repeat\n            set AppleScript's text item delimiters to \"\\n\"\n            return output as text\n        end tell");
    assert(out@ =~= list_folders_script());
    out
}

/// The script text of `create_folder`, around what is put in it.
pub open spec fn create_folder_script(escaped: Seq<char>) -> Seq<char> {
    "tell application \"Notes\"\n            make new folder with properties {name:\""@ + escaped + "\"}\n        end tell"@
}

fn create_folder_text(escaped: &Vec<char>) -> (r: Vec<char>)
    ensures
        r@ == create_folder_script(escaped@),
{
    let mut out = lit("tell application \"Notes\"\n            make new folder with properties {name:\"");
    append_vec(&mut out, escaped);
    append_str(&mut out, "\"}\n        end tell");
    assert(out@ =~= create_folder_script(escaped@));
    out
}

/// The script text of `rename_folder`, around what is put in it.
pub open spec fn rename_folder_script(escaped_old: Seq<char>, escaped_new: Seq<char>) -> Seq<char> {
    "tell application \"Notes\"\n            set name of folder \""@ + escaped_old + "\" to \""@ + escaped_new + "\"\n        end tell"@
}

fn rename_folder_text(escaped_old: &Vec<char>, escaped_new: &Vec<char>) -> (r: Vec<char>)
    ensures
        r@ == rename_folder_script(escaped_old@, escaped_new@),
{
    let mut out = lit("tell application \"Notes\"\n            set name of folder \"");
    append_vec(&mut out, escaped_old);
    append_str(&mut out, "\" to \"");
    append_vec(&mut out, escaped_new);
    append_str(&mut out, "\"\n        end tell");
    assert(out@ =~= rename_folder_script(escaped_old@, escaped_new@));
    out
}

/// The script text of `delete_folder`, around what is put in it.
pub open spec fn delete_folder_script(escaped: Seq<char>) -> Seq<char> {
    "tell application \"Notes\"\n            delete folder \""@ + escaped + "\"\n        end tell"@
}

fn delete_folder_text(escaped: &Vec<char>) -> (r: Vec<char>)
    ensures
        r@ == delete_folder_script(escaped@),
{
    let mut out = lit("tell application \"Notes\"\n            delete folder \"");
    append_vec(&mut out, escaped);
    append_str(&mut out, "\"\n        end tell");
    assert(out@ =~= delete_folder_script(escaped@));
    out
}

/// What goes after `repeat with f in`: the named folder of the default
/// account, or every folder.
pub open spec fn folder_loop_spec(folder: Option<Seq<char>>) -> Seq<char> {
    match folder {
        Some(f) => "{folder \""@ + escape_spec(f) + "\" of default account}"@,
        None => "every folder"@,
    }
}

/// The script that lists the notes (id and name, by folder) of one folder or
/// of all folders but "Recently Deleted".
pub fn list_notes(folder: Option<&str>) -> (r: String)
    ensures
        r@ == list_notes_script(folder_loop_spec(opt_str(folder))),
{
    let folder_loop = match folder {
        Some(f) => {
            let mut v = lit("{folder \"");
            append_vec(&mut v, &escape_vec(&chars_of(f)));
            append_str(&mut v, "\" of default account}");
            v
        },
        None => lit("every folder"),
    };
    string_of(&list_notes_text(&folder_loop))
}

/// The script that returns the first note whose name contains `name`, with
/// its folder, id, name and plain text.
pub fn get_note(name: &str) -> (r: String)
    ensures
        r@ == get_note_script(escape_spec(name@)),
{
    string_of(&get_note_text(&escape_vec(&chars_of(name))))
}

/// The script that lists the notes whose names contain `query`.
pub fn search_notes(query: &str) -> (r: String)
    ensures
        r@ == search_notes_script(escape_spec(query@)),
{
    string_of(&search_notes_text(&escape_vec(&chars_of(query))))
}

/// Where a new note goes: `in folder "..."`, or nothing for the default.
pub open spec fn folder_target_spec(folder: Option<Seq<char>>) -> Seq<char> {
    match folder {
        Some(f) => "in folder \""@ + escape_spec(f) + "\""@,
        None => seq![],
    }
}

/// The script that makes a note with this title and body.
pub fn create_note(title: &str, body: &str, folder: Option<&str>) -> (r: String)
    ensures
        r@ == create_note_script(
            folder_target_spec(opt_str(folder)),
            escape_spec(title@),
            html_body_spec(body@),
        ),
{
    let target = match folder {
        Some(f) => {
            let mut v = lit("in folder \"");
            append_vec(&mut v, &escape_vec(&chars_of(f)));
            append_str(&mut v, "\"");
            v
        },
        None => Vec::new(),
    };
    assert(target@ =~= folder_target_spec(opt_str(folder)));
    string_of(&create_note_text(&target, &escape_vec(&chars_of(title)), &html_body_vec(body)))
}

/// The script that replaces the title and body of the first note whose name
/// contains `name`.
pub fn update_note(name: &str, new_title: &str, new_body: &str) -> (r: String)
    ensures
        r@ == update_note_script(escape_spec(name@), escape_spec(new_title@), html_body_spec(new_body@)),
{
    string_of(
        &update_note_text(
            &escape_vec(&chars_of(name)),
            &escape_vec(&chars_of(new_title)),
            &html_body_vec(new_body),
        ),
    )
}

/// The script that moves the first note whose name contains `name` into a
/// folder.
pub fn move_note(name: &str, to_folder: &str) -> (r: String)
    ensures
        r@ == move_note_script(escape_spec(name@), escape_spec(to_folder@)),
{
    string_of(&move_note_text(&escape_vec(&chars_of(name)), &escape_vec(&chars_of(to_folder))))
}

/// The script that deletes the first note whose name contains `name`.
pub fn delete_note(name: &str) -> (r: String)
    ensures
        r@ == delete_note_script(escape_spec(name@)),
{
    string_of(&delete_note_text(&escape_vec(&chars_of(name))))
}

/// The script that lists the folders but "Recently Deleted".
pub fn list_folders() -> (r: String)
    ensures
        r@ == list_folders_script(),
{
    string_of(&list_folders_text())
}

/// The script that makes a folder.
pub fn create_folder(name: &str) -> (r: String)
    ensures
        r@ == create_folder_script(escape_spec(name@)),
{
    string_of(&create_folder_text(&escape_vec(&chars_of(name))))
}

/// The script that renames a folder.
pub fn rename_folder(old_name: &str, new_name: &str) -> (r: String)
    ensures
        r@ == rename_folder_script(escape_spec(old_name@), escape_spec(new_name@)),
{
    string_of(
        &rename_folder_text(&escape_vec(&chars_of(old_name)), &escape_vec(&chars_of(new_name))),
    )
}

/// The script that deletes a folder.
pub fn delete_folder(name: &str) -> (r: String)
    ensures
        r@ == delete_folder_script(escape_spec(name@)),
{
    string_of(&delete_folder_text(&escape_vec(&chars_of(name))))
}

// ---------------------------------------------------------------------------
// Reading what the scripts print
// ---------------------------------------------------------------------------

/// The note that a listing line `folder|||id|||name` describes, if it has
/// all three fields.
pub open spec fn note_of_line(line: Seq<char>) -> Option<NoteView> {
    let parts = splitn(line, "|||"@, 3);
    if parts.len() >= 3 {
        Some(NoteView { folder: trim(parts[0]), id: trim(parts[1]), name: trim(parts[2]), body: seq![] })
    } else {
        None
    }
}

/// The notes of the lines that describe one, in order.
pub open spec fn notes_of_lines(ls: Seq<Seq<char>>) -> Seq<NoteView>
    decreases ls.len(),
{
    if ls.len() == 0 {
        seq![]
    } else {
        notes_of_lines(ls.drop_last()) + match note_of_line(ls.last()) {
            Some(n) => seq![n],
            None => seq![],
        }
    }
}

/// The notes that a listing printed (after trimming the output).
pub open spec fn note_list_spec(output: Seq<char>) -> Seq<NoteView> {
    let o = trim(output);
    if o.len() == 0 {
        seq![]
    } else {
        notes_of_lines(lines(o))
    }
}

pub open spec fn notes_view(v: Seq<Note>) -> Seq<NoteView> {
    v.map_values(|n: Note| n@)
}

fn note_of_line_exec(line: &Vec<char>) -> (r: Option<Note>)
    ensures
        match r {
            Some(n) => note_of_line(line@) == Some(n@),
            None => note_of_line(line@) is None,
        },
{
    let sep = lit("|||");
    proof {
        reveal_strlit("|||");
    }
    let parts = splitn_vec(line, &sep, 3);
    let ghost pv = parts@.map_values(|v: Vec<char>| v@);
    if parts.len() >= 3 {
        assert(pv[0] == parts@[0]@ && pv[1] == parts@[1]@ && pv[2] == parts@[2]@);
        Some(Note {
            folder: string_of(&trim_vec(&parts[0])),
            id: string_of(&trim_vec(&parts[1])),
            name: string_of(&trim_vec(&parts[2])),
            body: String::new(),
        })
    } else {
        None
    }
}

/// The notes that a listing script (`list_notes`, `search_notes`) printed.
pub fn parse_note_list(output: &str) -> (r: Vec<Note>)
    ensures
        notes_view(r@) == note_list_spec(output@),
{
    let o = trim_vec(&chars_of(output));
    let mut out: Vec<Note> = Vec::new();
    if o.len() == 0 {
        assert(notes_view(out@) =~= Seq::<NoteView>::empty());
        return out;
    }
    let ls = lines_vec(&o);
    let ghost lv = ls@.map_values(|v: Vec<char>| v@);
    let mut i: usize = 0;
    assert(notes_view(out@) =~= notes_of_lines(lv.take(0)));
    while i < ls.len()
        invariant
            i <= ls.len(),
            lv == ls@.map_values(|v: Vec<char>| v@),
            notes_view(out@) == notes_of_lines(lv.take(i as int)),
        decreases ls.len() - i,
    {
        assert(lv.take(i + 1).drop_last() =~= lv.take(i as int));
        assert(lv[i as int] == ls@[i as int]@);
        let ghost before = notes_view(out@);
        match note_of_line_exec(&ls[i]) {
            Some(n) => {
                out.push(n);
                assert(notes_view(out@) =~= before + seq![note_of_line(lv[i as int])->0]);
            },
            None => {
                assert(notes_view(out@) =~= before + Seq::<NoteView>::empty());
            },
        }
        i += 1;
    }
    assert(lv.take(ls.len() as int) =~= lv);
    out
}

/// Why a note could not be read.
#[derive(Debug, Clone, Copy, PartialEq, Eq)]
pub enum NoteError {
    /// The script printed fewer than four `|||`-separated fields.
    Unparsable,
}

/// `s` without its leading line feeds (`trim_start_matches('\n')`).
pub open spec fn trim_leading_newlines(s: Seq<char>) -> Seq<char>
    decreases s.len(),
{
    if s.len() > 0 && s[0] == '\n' {
        trim_leading_newlines(s.drop_first())
    } else {
        s
    }
}

/// The note that `get_note`'s script printed: `folder|||id|||name|||text`,
/// where the text starts with the title line, which is left out of the body.
pub open spec fn note_spec(output: Seq<char>) -> Result<NoteView, NoteError> {
    let parts = splitn(trim(output), "|||"@, 4);
    if parts.len() < 4 {
        Err(NoteError::Unparsable)
    } else {
        let name = trim(parts[2]);
        let raw = trim(parts[3]);
        let body = if starts_with(raw, name) {
            trim_leading_newlines(raw.skip(name.len() as int))
        } else {
            raw
        };
        Ok(NoteView { id: trim(parts[1]), name: name, folder: trim(parts[0]), body: body })
    }
}

pub fn parse_note(output: &str) -> (r: Result<Note, NoteError>)
    ensures
        match r {
            Ok(n) => note_spec(output@) == Ok::<NoteView, NoteError>(n@),
            Err(e) => note_spec(output@) == Err::<NoteView, NoteError>(e),
        },
{
    let o = trim_vec(&chars_of(output));
    let sep = lit("|||");
    proof {
        reveal_strlit("|||");
    }
    let parts = splitn_vec(&o, &sep, 4);
    let ghost pv = parts@.map_values(|v: Vec<char>| v@);
    if parts.len() < 4 {
        return Err(NoteError::Unparsable);
    }
    assert(pv[0] == parts@[0]@ && pv[1] == parts@[1]@ && pv[2] == parts@[2]@ && pv[3] == parts@[3]@);
    let name = trim_vec(&parts[2]);
    let raw = trim_vec(&parts[3]);
    let body = match crate::text::strip_prefix_vec(&raw, &name) {
        Some(rest) => {
            let mut k: usize = 0;
            assert(rest@.skip(0) =~= rest@);
            while k < rest.len() && rest[k] == '\n'
                invariant
                    k <= rest.len(),
                    trim_leading_newlines(rest@) == trim_leading_newlines(rest@.skip(k as int)),
                decreases rest.len() - k,
            {
                assert(rest@.skip(k as int).drop_first() =~= rest@.skip(k + 1));
                k += 1;
            }
            let b = crate::text::slice_vec(&rest, k, rest.len());
            assert(b@ =~= rest@.skip(k as int));
            b
        },
        None => raw,
    };
    Ok(Note {
        id: string_of(&trim_vec(&parts[1])),
        name: string_of(&name),
        folder: string_of(&trim_vec(&parts[0])),
        body: string_of(&body),
    })
}

/// The folder names that `list_folders`' script printed.
pub open spec fn folder_list_spec(output: Seq<char>) -> Seq<Seq<char>> {
    let o = trim(output);
    if o.len() == 0 {
        seq![]
    } else {
        lines(o).map_values(|l: Seq<char>| trim(l))
    }
}

pub fn parse_folder_list(output: &str) -> (r: Vec<String>)
    ensures
        crate::model::strs_view(r) == folder_list_spec(output@),
{
    let o = trim_vec(&chars_of(output));
    let mut out: Vec<String> = Vec::new();
    if o.len() == 0 {
        assert(crate::model::strs_view(out) =~= Seq::<Seq<char>>::empty());
        return out;
    }
    let ls = lines_vec(&o);
    let ghost lv = ls@.map_values(|v: Vec<char>| v@);
    let mut i: usize = 0;
    while i < ls.len()
        invariant
            i <= ls.len(),
            lv == ls@.map_values(|v: Vec<char>| v@),
            out.len() == i,
            forall|j: int| 0 <= j < i ==> (#[trigger] out@[j])@ == trim(lv[j]),
        decreases ls.len() - i,
    {
        assert(lv[i as int] == ls@[i as int]@);
        out.push(string_of(&trim_vec(&ls[i])));
        i += 1;
    }
    assert(crate::model::strs_view(out) =~= lv.map_values(|l: Seq<char>| trim(l)));
    out
}


// ---------------------------------------------------------------------------
// Outcomes of a script run
// ---------------------------------------------------------------------------

/// What a run of `osascript` comes to, given whether it exited successfully
/// and what it printed (both streams decoded): on failure the error
/// `AppleScript error: ` followed by the trimmed standard error, else the
/// trimmed standard output.
pub open spec fn script_result(success: bool, stdout: Seq<char>, stderr: Seq<char>) -> Result<Seq<char>, Seq<char>> {
    if !success {
        Err("AppleScript error: "@ + trim(stderr))
    } else {
        Ok(trim(stdout))
    }
}

pub open spec fn text_result_view(r: Result<String, String>) -> Result<Seq<char>, Seq<char>> {
    match r {
        Ok(s) => Ok(s@),
        Err(e) => Err(e@),
    }
}

/// The outcome of a script run (see `script_result`).
pub fn script_output(success: bool, stdout: &str, stderr: &str) -> (r: Result<String, String>)
    ensures
        text_result_view(r) == script_result(success, stdout@, stderr@),
{
    if !success {
        let mut msg = lit("AppleScript error: ");
        proof {
            reveal_strlit("AppleScript error: ");
        }
        append_vec(&mut msg, &trim_vec(&chars_of(stderr)));
        Err(string_of(&msg))
    } else {
        Ok(string_of(&trim_vec(&chars_of(stdout))))
    }
}

/// The outcome of a script that only acts (creating, changing, moving or
/// deleting a note or folder): nothing on success, else the script error.
pub fn script_done(success: bool, stderr: &str) -> (r: Result<(), String>)
    ensures
        match script_result(success, seq![], stderr@) {
            Ok(_) => r is Ok,
            Err(e) => r matches Err(m) && m@ == e,
        },
{
    match script_output(success, "", stderr) {
        Ok(_) => Ok(()),
        Err(e) => Err(e),
    }
}

/// The notes that a run of a listing script (`list_notes`, `search_notes`)
/// gives: the script error, or the notes of its output.
pub fn notes_listed(success: bool, stdout: &str, stderr: &str) -> (r: Result<Vec<Note>, String>)
    ensures
        match script_result(success, stdout@, stderr@) {
            Err(e) => r matches Err(m) && m@ == e,
            Ok(o) => r matches Ok(v) && notes_view(v@) == note_list_spec(o),
        },
{
    match script_output(success, stdout, stderr) {
        Err(e) => Err(e),
        Ok(o) => Ok(parse_note_list(o.as_str())),
    }
}

/// The note that a run of `get_note`'s script gives: the script error, the
/// error `Could not parse note response` where the output has fewer than
/// four fields, or the note.
pub fn note_read(success: bool, stdout: &str, stderr: &str) -> (r: Result<Note, String>)
    ensures
        match script_result(success, stdout@, stderr@) {
            Err(e) => r matches Err(m) && m@ == e,
            Ok(o) => match note_spec(o) {
                Ok(n) => r matches Ok(x) && x@ == n,
                Err(_) => r matches Err(m) && m@ == "Could not parse note response"@,
            },
        },
{
    match script_output(success, stdout, stderr) {
        Err(e) => Err(e),
        Ok(o) => match parse_note(o.as_str()) {
            Ok(n) => Ok(n),
            Err(_) => {
                let m = lit("Could not parse note response");
                proof {
                    reveal_strlit("Could not parse note response");
                }
                Err(string_of(&m))
            },
        },
    }
}

/// The folder names that a run of `list_folders`' script gives: the script
/// error, or the names it printed.
pub fn folders_listed(success: bool, stdout: &str, stderr: &str) -> (r: Result<Vec<String>, String>)
    ensures
        match script_result(success, stdout@, stderr@) {
            Err(e) => r matches Err(m) && m@ == e,
            Ok(o) => r matches Ok(v) && crate::model::strs_view(v) == folder_list_spec(o),
        },
{
    match script_output(success, stdout, stderr) {
        Err(e) => Err(e),
        Ok(o) => Ok(parse_folder_list(o.as_str())),
    }
}

} // verus!
