use cairn::notes::{
    create_folder, escape_applescript, folders_listed, get_note, list_folders, list_notes,
    note_read, notes_listed, parse_folder_list, parse_note, parse_note_list, script_done,
    script_output, NoteError,
};

#[test]
fn applescript_strings_are_escaped() {
    assert_eq!(escape_applescript(r#"say "hi" \ bye"#), r#"say \"hi\" \\ bye"#);
    assert_eq!(escape_applescript("plain"), "plain");
}

#[test]
fn scripts_embed_escaped_names() {
    let all = list_notes(None);
    assert!(all.contains("repeat with f in every folder"));
    let one = list_notes(Some("Work \"A\""));
    assert!(one.contains(r#"repeat with f in {folder "Work \"A\"" of default account}"#));
    assert!(get_note("x\"y").contains(r#"whose name contains "x\"y""#));
    assert!(create_folder("New").contains("New"));
    assert!(list_folders().contains("Recently Deleted"));
}

#[test]
fn note_lists_are_parsed() {
    let notes = parse_note_list("Work|||id-1|||Plan\nbroken line\nHome ||| id-2 ||| Groceries |||x\n");
    assert_eq!(notes.len(), 2);
    assert_eq!(notes[0].folder, "Work");
    assert_eq!(notes[0].id, "id-1");
    assert_eq!(notes[0].name, "Plan");
    assert_eq!(notes[0].body, "");
    assert_eq!(notes[1].folder, "Home");
    assert_eq!(notes[1].name, "Groceries |||x");
    assert!(parse_note_list("").is_empty());
}

#[test]
fn a_note_body_loses_its_title_line() {
    let n = parse_note("Work|||id-1|||Plan|||Plan\n\nStep one\n").unwrap();
    assert_eq!(n.name, "Plan");
    assert_eq!(n.body, "Step one");
    let n = parse_note("Work|||id-1|||Plan|||Other text").unwrap();
    assert_eq!(n.body, "Other text");
    assert!(matches!(parse_note("only|||three|||parts"), Err(NoteError::Unparsable)));
}

#[test]
fn folder_lists_are_parsed() {
    assert_eq!(parse_folder_list(" Notes \nWork\n"), vec!["Notes".to_string(), "Work".to_string()]);
    assert!(parse_folder_list("").is_empty());
}

#[test]
fn failed_script_reports_its_stderr() {
    assert_eq!(
        script_output(false, "ignored", "  execution error: Notes got an error.\n"),
        Err("AppleScript error: execution error: Notes got an error.".to_string())
    );
    assert_eq!(script_output(true, "\n out \n", "warning"), Ok("out".to_string()));
    assert_eq!(script_done(true, ""), Ok(()));
    assert_eq!(script_done(false, " boom "), Err("AppleScript error: boom".to_string()));
    assert_eq!(
        notes_listed(false, "", "no access").map(|v| v.len()),
        Err("AppleScript error: no access".to_string())
    );
    assert_eq!(
        folders_listed(false, "Notes", "").map(|v| v.len()),
        Err("AppleScript error: ".to_string())
    );
    assert_eq!(
        note_read(false, "", "No note found matching: x").map(|n| n.id),
        Err("AppleScript error: No note found matching: x".to_string())
    );
}

#[test]
fn successful_listing_runs_are_parsed() {
    let notes = notes_listed(true, "Work ||| id1 ||| Plan\nbroken line\nHome|||id2|||Shop\n\n", "").unwrap();
    assert_eq!(notes.len(), 2);
    assert_eq!((notes[0].folder.as_str(), notes[0].id.as_str(), notes[0].name.as_str()), ("Work", "id1", "Plan"));
    assert_eq!((notes[1].folder.as_str(), notes[1].id.as_str(), notes[1].name.as_str()), ("Home", "id2", "Shop"));
    assert!(notes_listed(true, "  \n", "").unwrap().is_empty());
    assert_eq!(folders_listed(true, "Notes\n Work \n", "").unwrap(), vec!["Notes".to_string(), "Work".to_string()]);
    assert!(folders_listed(true, "", "").unwrap().is_empty());
    let n = note_read(true, "Work|||id1|||Plan|||Plan\n\nbuy milk\n", "").unwrap();
    assert_eq!((n.name.as_str(), n.body.as_str()), ("Plan", "buy milk"));
    assert_eq!(note_read(true, "only|||two", "").map(|n| n.id), Err("Could not parse note response".to_string()));
}
