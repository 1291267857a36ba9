use file_explorer::fileops::{
    action_targets, batch_rename, batch_step, clipboard_script, copy_names, copy_paths,
    destination_dir, join_strings, parse_batch_input, paste_step, rename_caret, rename_target,
    replace_all_chars, tally_message, trash_script, trashed_message, undo_move_message,
    undo_trash_message, valid_new_name, BatchInputError, MoveRun, MoveStep,
};
use file_explorer::undo::UndoAction;

fn strings(v: &[&str]) -> Vec<String> {
    v.iter().map(|s| s.to_string()).collect()
}

#[test]
fn targets_are_the_marked_or_else_the_current() {
    assert_eq!(action_targets(strings(&["/a", "/b"]), Some("/c".to_string())), strings(&["/a", "/b"]));
    assert_eq!(action_targets(vec![], Some("/c".to_string())), strings(&["/c"]));
    assert!(action_targets(vec![], None).is_empty());
}

#[test]
fn scripts_quote_the_paths() {
    let paths = strings(&["/a", "/b\"c"]);
    assert_eq!(
        trash_script(&paths),
        "tell application \"Finder\" to delete { POSIX file \"/a\", POSIX file \"/b\\\"c\" }"
    );
    assert_eq!(
        clipboard_script(&strings(&["/x"])),
        Some("set the clipboard to {POSIX file \"/x\"}".to_string())
    );
    assert_eq!(clipboard_script(&vec![]), None);
}

#[test]
fn copying_names_counts_the_targets() {
    let c = copy_names(strings(&["/a/x.txt", "/b/y"]), None).unwrap();
    assert_eq!(c.payload, "x.txt\ny");
    assert_eq!(c.message, "Copied 2 names");
    let one = copy_names(vec![], Some("/a/z".to_string())).unwrap();
    assert_eq!(one.payload, "z");
    assert_eq!(one.message, "Copied 1 name");
    assert!(one.files.is_none());
    let nameless = copy_names(strings(&["/"]), None).unwrap();
    assert_eq!(nameless.payload, "");
    assert_eq!(nameless.message, "Copied 1 name");
    assert!(copy_names(vec![], None).is_none());
}

#[test]
fn copying_paths_joins_them() {
    let c = copy_paths(&strings(&["/a", "/b"]), Some("/x".to_string())).unwrap();
    assert_eq!(c.payload, "/a\n/b");
    assert_eq!(c.message, "Copied 2 paths");
    let one = copy_paths(&vec![], Some("/q".to_string())).unwrap();
    assert_eq!(one.payload, "/q");
    assert_eq!(one.message, "Copied 1 path");
    assert_eq!(c.files.as_deref(), Some("set the clipboard to {POSIX file \"/a\", POSIX file \"/b\"}"));
    assert_eq!(one.files.as_deref(), Some("set the clipboard to {POSIX file \"/q\"}"));
    assert!(copy_paths(&vec![], None).is_none());
}

#[test]
fn messages_after_operations() {
    assert_eq!(tally_message("Renamed", 3, 0), "Renamed 3");
    assert_eq!(tally_message("Moved", 2, 1), "Moved 2 · 1 failed");
    assert_eq!(undo_move_message(2, 0), "Undid move (2)");
    assert_eq!(undo_move_message(1, 2), "Undo move: 1 ok · 2 failed");
    assert_eq!(undo_trash_message(1), "Trash can't be undone here — press ⌘⇧Z in Finder (1 item)");
    assert_eq!(undo_trash_message(3), "Trash can't be undone here — press ⌘⇧Z in Finder (3 items)");
    assert_eq!(trashed_message(4), "Trashed 4");
    assert_eq!(join_strings(&strings(&["a", "b", "c"]), ", "), "a, b, c");
    assert_eq!(join_strings(&vec![], ", "), "");
}

#[test]
fn new_names_are_trimmed_and_checked() {
    assert_eq!(valid_new_name("  new.txt "), Some("new.txt".to_string()));
    assert_eq!(valid_new_name("a/b"), None);
    assert_eq!(valid_new_name("   "), None);
}

#[test]
fn rename_caret_stops_before_the_extension() {
    assert_eq!(rename_caret("photo.jpeg"), 5);
    assert_eq!(rename_caret("noext"), 5);
    assert_eq!(rename_caret("a.b.c"), 3);
    assert_eq!(rename_caret("é.x"), 2);
    assert_eq!(rename_caret(""), 0);
}

#[test]
fn batch_input_needs_a_slash_and_a_find() {
    assert_eq!(parse_batch_input(" img/photo "), Ok(("img".to_string(), "photo".to_string())));
    assert_eq!(parse_batch_input("a/b/c"), Ok(("a".to_string(), "b/c".to_string())));
    assert_eq!(parse_batch_input("a/"), Ok(("a".to_string(), "".to_string())));
    assert_eq!(parse_batch_input("noslash"), Err(BatchInputError::NoSlash));
    assert_eq!(parse_batch_input("/x"), Err(BatchInputError::EmptyFind));
    assert_eq!(BatchInputError::NoSlash.message(), "Use `find/replace` format");
    assert_eq!(BatchInputError::EmptyFind.message(), "`find` is empty");
}

#[test]
fn batch_rename_replaces_every_occurrence() {
    assert_eq!(batch_rename("img_img.png", "img", "photo"), Some("photo_photo.png".to_string()));
    assert_eq!(batch_rename("aaa", "aa", "b"), Some("ba".to_string()));
    assert_eq!(batch_rename("x.png", "img", "p"), None);
    assert_eq!(batch_rename("abc", "b", "b"), None);
    let v: Vec<char> = "a-b-c".chars().collect();
    let out: String = replace_all_chars(&v, &['-'], &['+', '+']).into_iter().collect();
    assert_eq!(out, "a++b++c");
}

#[test]
fn targets_of_renames_and_moves() {
    assert_eq!(rename_target("/a/b.txt", "c.txt"), "/a/c.txt");
    assert!(matches!(batch_step("/d/img1.png", "img", "pic"), MoveStep::Move(t) if t == "/d/pic1.png"));
    assert!(matches!(batch_step("/d/x.png", "img", "pic"), MoveStep::Skip));
    assert!(matches!(batch_step("/", "img", "pic"), MoveStep::Fail));
    assert!(matches!(paste_step("/dest", "/src/f.txt"), MoveStep::Move(t) if t == "/dest/f.txt"));
    assert!(matches!(paste_step("/dest", "/"), MoveStep::Fail));
    assert_eq!(destination_dir(true, Some("/c".to_string()), "/r".to_string()), "/c");
    assert_eq!(destination_dir(false, Some("/c".to_string()), "/r".to_string()), "/r");
    assert_eq!(destination_dir(true, None, "/r".to_string()), "/r");
}

#[test]
fn a_run_of_moves_tallies_and_records_its_undo() {
    let mut run = MoveRun::new();
    run.moved("/a".to_string(), "/d/a".to_string());
    run.failed();
    run.moved("/b".to_string(), "/d/b".to_string());
    let (msg, undo) = run.finish("Moved");
    assert_eq!(msg, "Moved 2 · 1 failed");
    match undo {
        Some(UndoAction::Move { pairs }) => assert_eq!(
            pairs,
            vec![
                ("/a".to_string(), "/d/a".to_string()),
                ("/b".to_string(), "/d/b".to_string())
            ]
        ),
        _ => panic!("expected a move to undo"),
    }
    let (msg, undo) = MoveRun::new().finish("Renamed");
    assert_eq!(msg, "Renamed 0");
    assert!(undo.is_none());
}
