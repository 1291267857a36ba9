use file_explorer::content::ContentMatch;
use file_explorer::display::{entry_kind, footer_hints, hidden_chips, search_bar, sort_badge, sort_chips};
use file_explorer::edit::{caret_layout, select_word, KeyStroke};
use file_explorer::index::{PathEntry, PathMatcher};
use file_explorer::keys::{key_command, last_row, popped_query, typed_query, Command};
use file_explorer::overlay::{create_title, created_message, CreateKind, Mode, Overlays};
use file_explorer::selection::{
    current_count, current_is_dir, current_path, descend_target, editor_launches, marked_paths,
    menu_items, menu_target,
    open_request, pins,
};
use file_explorer::session::{SearchMode, SortMode};
use std::collections::BTreeSet;

fn key(k: &str) -> KeyStroke {
    KeyStroke {
        key: k.to_string(),
        shift: false,
        platform: false,
        alt: false,
        control: false,
        key_char: None,
    }
}

fn cmd(k: &str) -> KeyStroke {
    KeyStroke { platform: true, ..key(k) }
}

fn typed(c: &str) -> KeyStroke {
    KeyStroke { key_char: Some(c.to_string()), ..key(c) }
}

fn entry(path: &str, display: &str, is_dir: bool) -> PathEntry {
    PathEntry { path: path.to_string(), display: display.to_string(), is_dir }
}

fn hit(path: &str, line: u64) -> ContentMatch {
    ContentMatch { path: path.to_string(), line, text: "x".to_string() }
}

fn results() -> Vec<PathEntry> {
    vec![entry("/r/src", "src", true), entry("/r/a.txt", "a.txt", false), entry("/r/b.md", "b.md", false)]
}

#[test]
fn overlays_take_their_keys_first() {
    for mode in [Mode::PathBar, Mode::Create, Mode::BatchRename, Mode::Rename] {
        assert_eq!(key_command(mode, true, &key("escape"), true), Command::Cancel);
        assert_eq!(key_command(mode, false, &key("enter"), true), Command::Submit);
        assert_eq!(key_command(mode, false, &cmd("h"), true), Command::EditField);
        assert_eq!(key_command(mode, false, &typed("q"), true), Command::EditField);
    }
    assert_eq!(key_command(Mode::Settings, false, &key("escape"), true), Command::CloseSettings);
    assert_eq!(key_command(Mode::Settings, false, &cmd(","), true), Command::CloseSettings);
    assert_eq!(key_command(Mode::Settings, false, &key("down"), true), Command::Ignore);
}

#[test]
fn search_mode_keys() {
    let m = Mode::Search;
    assert_eq!(key_command(m, true, &key("escape"), true), Command::CloseMenu);
    assert_eq!(key_command(m, false, &key("escape"), true), Command::Quit);
    assert_eq!(key_command(m, false, &cmd("escape"), true), Command::Ignore);
    assert_eq!(key_command(m, false, &key("f2"), true), Command::StartRename);
    assert_eq!(key_command(m, false, &cmd("f2"), true), Command::StartBatchRename);
    assert_eq!(key_command(m, false, &cmd("c"), true), Command::CopyPath);
    let shift_c = KeyStroke { shift: true, ..cmd("c") };
    assert_eq!(key_command(m, false, &shift_c, true), Command::CopyName);
    let shift_n = KeyStroke { shift: true, ..cmd("n") };
    let alt_n = KeyStroke { alt: true, ..cmd("n") };
    assert_eq!(key_command(m, false, &shift_n, true), Command::StartCreate(CreateKind::Folder));
    assert_eq!(key_command(m, false, &alt_n, true), Command::StartCreate(CreateKind::File));
    assert_eq!(key_command(m, false, &cmd("n"), true), Command::NewWindow);
    assert_eq!(key_command(m, false, &cmd("3"), true), Command::JumpPin(2));
    assert_eq!(key_command(m, false, &cmd("up"), true), Command::SelectFirst);
    assert_eq!(key_command(m, false, &cmd("down"), true), Command::SelectLast);
    assert_eq!(key_command(m, false, &cmd("backspace"), true), Command::Trash);
    // An unbound command chord falls through to the plain keys.
    assert_eq!(key_command(m, false, &cmd("space"), true), Command::QuickLook);
    assert_eq!(key_command(m, false, &cmd("]"), true), Command::Ignore);
    let ctrl = |k: &str| KeyStroke { control: true, ..key(k) };
    assert_eq!(key_command(m, false, &ctrl("n"), true), Command::Move(1));
    assert_eq!(key_command(m, false, &ctrl("p"), true), Command::Move(-1));
    assert_eq!(key_command(m, false, &ctrl("d"), true), Command::Move(40));
    assert_eq!(key_command(m, false, &ctrl("u"), true), Command::Move(-40));
    assert_eq!(key_command(m, false, &key("pagedown"), true), Command::Move(80));
    assert_eq!(key_command(m, false, &key("pageup"), true), Command::Move(-80));
    let shift_tab = KeyStroke { shift: true, ..key("tab") };
    assert_eq!(key_command(m, false, &key("tab"), true), Command::Descend);
    assert_eq!(key_command(m, false, &shift_tab, true), Command::Ascend);
    assert_eq!(key_command(m, false, &key("backspace"), true), Command::Ascend);
    assert_eq!(key_command(m, false, &key("backspace"), false), Command::PopQuery);
    assert_eq!(key_command(m, false, &typed("q"), true), Command::TypeQuery);
    assert_eq!(key_command(m, false, &typed(" "), true), Command::Ignore);
    assert_eq!(key_command(m, false, &typed("\u{7}"), true), Command::Ignore);
    let alt_q = KeyStroke { alt: true, ..typed("q") };
    assert_eq!(key_command(m, false, &alt_q, true), Command::Ignore);
}

#[test]
fn query_edits() {
    assert_eq!(typed_query("ab", "ç"), "abç");
    assert_eq!(popped_query("abç"), "ab");
    assert_eq!(popped_query(""), "");
    assert_eq!(last_row(0), 0);
    assert_eq!(last_row(5), 4);
}

#[test]
fn selection_follows_the_search_mode() {
    let rs = results();
    let ms = vec![hit("/r/a.txt", 3), hit("/r/b.md", 9)];
    assert_eq!(current_count(SearchMode::Filename, &rs, Some(&ms)), 3);
    assert_eq!(current_count(SearchMode::Content, &rs, Some(&ms)), 2);
    assert_eq!(current_count(SearchMode::Content, &rs, None), 0);
    assert_eq!(current_path(SearchMode::Filename, &rs, None, 1), Some("/r/a.txt".to_string()));
    assert_eq!(current_path(SearchMode::Content, &rs, Some(&ms), 1), Some("/r/b.md".to_string()));
    assert_eq!(current_path(SearchMode::Content, &rs, Some(&ms), 2), None);
    assert!(current_is_dir(SearchMode::Filename, &rs, 0));
    assert!(!current_is_dir(SearchMode::Content, &rs, 0));
    assert!(!current_is_dir(SearchMode::Filename, &rs, 7));
    assert_eq!(descend_target(SearchMode::Filename, &rs, 0), Some("/r/src".to_string()));
    assert_eq!(descend_target(SearchMode::Filename, &rs, 1), None);
    assert_eq!(open_request(SearchMode::Content, &rs, Some(&ms), 0), Some(("/r/a.txt".to_string(), Some(3))));
    assert_eq!(open_request(SearchMode::Filename, &rs, Some(&ms), 2), Some(("/r/b.md".to_string(), None)));
    assert_eq!(open_request(SearchMode::Filename, &rs, None, 3), None);
}

#[test]
fn marked_paths_come_in_row_order_and_skip_stale_marks() {
    let rs = results();
    let marked: BTreeSet<usize> = [9, 2, 0].into_iter().collect();
    assert_eq!(
        marked_paths(SearchMode::Filename, &rs, None, &marked),
        vec!["/r/src".to_string(), "/r/b.md".to_string()]
    );
    let ms = vec![hit("/r/a.txt", 3)];
    assert_eq!(marked_paths(SearchMode::Content, &rs, Some(&ms), &marked), vec!["/r/a.txt".to_string()]);
    assert!(marked_paths(SearchMode::Content, &rs, None, &marked).is_empty());
}

#[test]
fn pinned_places() {
    let ps = pins("/Users/me");
    let got: Vec<(String, String)> = ps.iter().map(|p| (p.label.clone(), p.path.clone())).collect();
    let want: Vec<(String, String)> = [
        ("Home", "/Users/me"),
        ("Documents", "/Users/me/Documents"),
        ("Downloads", "/Users/me/Downloads"),
        ("Desktop", "/Users/me/Desktop"),
        ("Applications", "/Applications"),
        ("Projects", "/Users/me/code"),
    ]
    .iter()
    .map(|(a, b)| (a.to_string(), b.to_string()))
    .collect();
    assert_eq!(got, want);
    assert!(ps.iter().all(|p| p.icon.is_empty()));
    assert_eq!(pins("")[1].path, "Documents");
}

#[test]
fn overlays_open_filled_and_close_empty() {
    let mut o = Overlays::new();
    assert_eq!(o.mode, Mode::Search);
    o.start_create(CreateKind::File);
    assert_eq!(o.mode, Mode::Create);
    assert_eq!(o.create.text, "untitled.txt");
    assert_eq!(o.create.cursor, 12);
    o.close_create();
    assert_eq!(o.mode, Mode::Search);
    assert!(o.create.text.is_empty());
    assert!(!o.start_batch_rename(false));
    assert_eq!(o.mode, Mode::Search);
    assert!(o.start_batch_rename(true));
    assert_eq!((o.batch.text.as_str(), o.batch.cursor), ("find/replace", 12));
    o.close_batch_rename();
    assert!(o.start_rename(Some("/r/photo.jpeg")));
    assert_eq!((o.rename.text.as_str(), o.rename.cursor, o.mode), ("photo.jpeg", 5, Mode::Rename));
    o.close_rename();
    assert!(!o.start_rename(None));
    assert_eq!(o.mode, Mode::Search);
    o.enter_path_bar("/tmp/ü".to_string());
    assert_eq!((o.path.text.as_str(), o.path.cursor, o.mode), ("/tmp/ü", 7, Mode::PathBar));
    o.close_overlay();
    assert!(o.path.text.is_empty());
    o.open_settings();
    assert_eq!(o.mode, Mode::Settings);
    assert_eq!(created_message(CreateKind::Folder), "Created folder");
    assert_eq!(created_message(CreateKind::File), "Created file");
}

#[test]
fn caret_layout_splits_around_the_selection() {
    let t = "héllo".to_string();
    let l = caret_layout(&t, 3, None);
    assert_eq!((l.before.as_str(), l.selected.as_str(), l.after.as_str(), l.caret_at_start), ("hé", "", "llo", true));
    let l = caret_layout(&t, 1, Some(5));
    assert_eq!((l.before.as_str(), l.selected.as_str(), l.after.as_str(), l.caret_at_start), ("h", "éll", "o", true));
    let l = caret_layout(&t, 6, Some(3));
    assert_eq!((l.before.as_str(), l.selected.as_str(), l.after.as_str(), l.caret_at_start), ("hé", "llo", "", false));
    let l = caret_layout(&t, 99, None);
    assert_eq!((l.before.as_str(), l.after.as_str()), ("héllo", ""));
}

#[test]
fn footer_hints_and_badge() {
    let h = footer_hints();
    assert_eq!(h.len(), 24);
    assert_eq!(h[0], ("↵", "open"));
    assert_eq!(h[19], ("⌘\\", "tree"));
    assert_eq!(h[23], ("⌘R", "refresh"));
    assert_eq!(sort_badge(SortMode::Modified), "⇅ modified");
}

#[test]
fn row_indices_mark_each_result() {
    let mut m = PathMatcher::new();
    let rs = vec![entry("/r/src/main.rs", "src/main.rs", false), entry("/r/x", "x", false)];
    assert!(m.row_indices("", &rs).is_empty());
    let idx = m.row_indices("main", &rs);
    assert_eq!(idx.len(), 2);
    assert_eq!(idx[0], vec![4, 5, 6, 7]);
    assert!(idx[1].is_empty());
}

#[test]
fn context_menu_targets_and_items() {
    let rs = results();
    let ms = vec![hit("/r/a.txt", 3)];
    assert_eq!(menu_target(SearchMode::Filename, &rs, None, 0), Some(("/r/src".to_string(), true)));
    assert_eq!(menu_target(SearchMode::Content, &rs, Some(&ms), 0), Some(("/r/a.txt".to_string(), false)));
    assert_eq!(menu_target(SearchMode::Content, &rs, Some(&ms), 1), None);
    assert_eq!(menu_target(SearchMode::Filename, &rs, None, 3), None);
    let folder = menu_items(true);
    assert_eq!(folder[0], ("Open Folder", "↵"));
    assert_eq!(menu_items(false)[0], ("Open", "↵"));
    assert_eq!(folder.len(), 6);
    assert_eq!(folder[5], ("Move to Trash", "⌘⌫"));
}

#[test]
fn titles_kinds_and_search_bar() {
    assert_eq!(create_title(CreateKind::Folder), "NEW FOLDER");
    assert_eq!(create_title(CreateKind::File), "NEW FILE");
    assert_eq!(entry_kind(true, true), "Folder");
    assert_eq!(entry_kind(false, true), "Symlink");
    assert_eq!(entry_kind(false, false), "File");
    assert_eq!(search_bar(SearchMode::Filename, ""), ("FILES", "Search filenames…".to_string()));
    assert_eq!(search_bar(SearchMode::Content, ""), ("CONTENT", "Search inside files…".to_string()));
    assert_eq!(search_bar(SearchMode::Content, "fn"), ("CONTENT", "fn▏".to_string()));
}

#[test]
fn settings_chips_mark_the_current_choice() {
    assert_eq!(hidden_chips(false), vec![("Show", true, false), ("Hide", false, true)]);
    let s = sort_chips(SortMode::Size);
    assert_eq!(s.len(), 4);
    assert_eq!(s[2], ("Size", SortMode::Size, true));
    assert!(s.iter().filter(|c| c.2).count() == 1);
}

#[test]
fn double_click_selects_the_word_at_the_caret() {
    let t = "ab héllo  x".to_string();
    let (mut c, mut a) = (5usize, None);
    select_word(&t, &mut c, &mut a);
    assert_eq!((c, a), (9, Some(3)));
    let (mut c, mut a) = (10usize, Some(2));
    select_word(&t, &mut c, &mut a);
    assert_eq!((c, a), (10, Some(2)));
    let (mut c, mut a) = (99usize, None);
    select_word(&t, &mut c, &mut a);
    assert_eq!((c, a), (12, Some(11)));
    let (mut c, mut a) = (0usize, None);
    select_word(&"".to_string(), &mut c, &mut a);
    assert_eq!((c, a), (0, None));
}

#[test]
fn cancel_closes_whichever_overlay_is_open() {
    let mut o = Overlays::new();
    o.start_create(CreateKind::Folder);
    o.cancel();
    assert_eq!(o.mode, Mode::Search);
    assert!(o.create.text.is_empty());
    o.enter_path_bar("/tmp".to_string());
    o.cancel();
    assert_eq!(o.mode, Mode::Search);
    assert!(o.path.text.is_empty());
    o.open_settings();
    o.cancel();
    assert_eq!(o.mode, Mode::Settings);
}

#[test]
fn editors_are_tried_in_order() {
    let s = |v: &[&str]| v.iter().map(|x| x.to_string()).collect::<Vec<String>>();
    let l = editor_launches("/a/b.rs", 12, Some("vim"));
    assert_eq!(
        l,
        vec![
            ("cursor".to_string(), s(&["--goto", "/a/b.rs:12"])),
            ("code".to_string(), s(&["--goto", "/a/b.rs:12"])),
            ("vim".to_string(), s(&["+12", "/a/b.rs"])),
            ("open".to_string(), s(&["/a/b.rs"])),
        ]
    );
    assert_eq!(editor_launches("/x", 1, Some("")).len(), 3);
    assert_eq!(editor_launches("/x", 1, None)[2], ("open".to_string(), s(&["/x"])));
}
