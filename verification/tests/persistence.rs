use file_explorer::session::{
    parse_session, parse_session_line, session_body, session_line, SearchMode, SortMode,
    TabSnapshot,
};
use file_explorer::settings::{bool_string, parse_settings, settings_body, Settings};
use file_explorer::undo::{
    finish_undo, parse_undo, push_undo, take_undo, undo_body, undo_line, undo_plan, undo_report,
    UndoAction, UNDO_CAP,
};

fn tab(root: &str, query: &str) -> TabSnapshot {
    TabSnapshot {
        root: root.to_string(),
        query: query.to_string(),
        search_mode: SearchMode::Filename,
        sort: SortMode::Relevance,
        selected: 0,
        viewport_start: 0,
        show_hidden: false,
    }
}

fn same_tab(a: &TabSnapshot, b: &TabSnapshot) -> bool {
    a.root == b.root
        && a.query == b.query
        && a.search_mode == b.search_mode
        && a.sort == b.sort
        && a.selected == b.selected
        && a.viewport_start == b.viewport_start
        && a.show_hidden == b.show_hidden
}

#[test]
fn settings_default_is_relevance_without_hidden() {
    let s = Settings::default();
    assert!(!s.show_hidden);
    assert_eq!(s.sort, "relevance");
}

#[test]
fn settings_body_lists_both_keys() {
    let s = Settings { show_hidden: true, sort: "name".to_string() };
    assert_eq!(settings_body(&s), "show_hidden=true\nsort=name\n");
}

#[test]
fn settings_parse_reads_trimmed_values() {
    let s = parse_settings("  show_hidden = yes \n# sort=size\nsort =  modified\nunknown=1\nnoequals\n");
    assert!(s.show_hidden);
    assert_eq!(s.sort, "modified");
}

#[test]
fn settings_parse_other_value_is_off() {
    let s = parse_settings("show_hidden=true\nshow_hidden=no\n");
    assert!(!s.show_hidden);
    assert_eq!(s.sort, "relevance");
}

#[test]
fn settings_parse_one_turns_hidden_on() {
    assert!(parse_settings("show_hidden=1").show_hidden);
}

#[test]
fn settings_parse_empty_body_gives_defaults() {
    let s = parse_settings("");
    assert!(!s.show_hidden);
    assert_eq!(s.sort, "relevance");
}

#[test]
fn settings_roundtrip_on_examples() {
    for (h, sort) in [(false, "size"), (true, "relevance"), (true, "modified")] {
        let s = Settings { show_hidden: h, sort: sort.to_string() };
        let back = parse_settings(&settings_body(&s));
        assert_eq!(back.show_hidden, h);
        assert_eq!(back.sort, sort);
    }
}

#[test]
fn bool_string_displays_like_bool() {
    assert_eq!(bool_string(true), "true");
    assert_eq!(bool_string(false), "false");
}

#[test]
fn sort_mode_labels_and_cycle() {
    assert_eq!(SortMode::Relevance.label(), "relevance");
    assert_eq!(SortMode::Modified.label(), "modified");
    assert_eq!(SortMode::Relevance.next(), SortMode::Name);
    assert_eq!(SortMode::Name.next(), SortMode::Size);
    assert_eq!(SortMode::Size.next(), SortMode::Modified);
    assert_eq!(SortMode::Modified.next(), SortMode::Relevance);
    assert_eq!(SortMode::from_label("size"), SortMode::Size);
    assert_eq!(SortMode::from_label("bogus"), SortMode::Relevance);
    for m in [SortMode::Relevance, SortMode::Name, SortMode::Size, SortMode::Modified] {
        assert_eq!(SortMode::from_label(m.label()), m);
        assert_eq!(m.next().next().next().next(), m);
        assert_ne!(m.next(), m);
    }
}

#[test]
fn session_line_writes_seven_fields() {
    let t = TabSnapshot {
        root: "/tmp/x".to_string(),
        query: "a\tb".to_string(),
        search_mode: SearchMode::Content,
        sort: SortMode::Name,
        selected: 3,
        viewport_start: 1,
        show_hidden: true,
    };
    assert_eq!(session_line(&t), "/tmp/x\ta b\tcontent\tname\t3\t1\ttrue");
}

#[test]
fn session_line_parse_fills_defaults() {
    let t = parse_session_line("/home/me").unwrap();
    assert!(same_tab(&t, &tab("/home/me", "")));
}

#[test]
fn session_line_parse_reads_all_fields() {
    let t = parse_session_line("/a\tq\tcontent\tsize\t7\t2\ttrue").unwrap();
    assert_eq!(t.root, "/a");
    assert_eq!(t.query, "q");
    assert_eq!(t.search_mode, SearchMode::Content);
    assert_eq!(t.sort, SortMode::Size);
    assert_eq!(t.selected, 7);
    assert_eq!(t.viewport_start, 2);
    assert!(t.show_hidden);
}

#[test]
fn session_line_parse_bad_fields_fall_back() {
    let t = parse_session_line("/a\tq\tfiles\tweird\tx\t-1\tyes").unwrap();
    assert_eq!(t.search_mode, SearchMode::Filename);
    assert_eq!(t.sort, SortMode::Relevance);
    assert_eq!(t.selected, 0);
    assert_eq!(t.viewport_start, 0);
    assert!(!t.show_hidden);
}

#[test]
fn session_line_parse_accepts_plus_sign() {
    let t = parse_session_line("/a\t\t\t\t+4").unwrap();
    assert_eq!(t.selected, 4);
    assert_eq!(t.query, "");
}

#[test]
fn session_body_joins_lines_without_trailing_break() {
    let body = session_body(&vec![tab("/a", "x"), tab("/b", "")]);
    assert_eq!(body, "/a\tx\tfiles\trelevance\t0\t0\tfalse\n/b\t\tfiles\trelevance\t0\t0\tfalse");
}

#[test]
fn session_parse_skips_blank_lines() {
    let tabs = parse_session("/a\n\n   \n/b\r\n");
    assert_eq!(tabs.len(), 2);
    assert_eq!(tabs[0].root, "/a");
    assert_eq!(tabs[1].root, "/b");
}

#[test]
fn session_roundtrip_on_example() {
    let mut second = tab("/b", "tab\there");
    second.search_mode = SearchMode::Content;
    second.sort = SortMode::Modified;
    second.selected = 12;
    second.viewport_start = 4;
    second.show_hidden = true;
    let tabs = vec![tab("/a", "q"), second];
    let back = parse_session(&session_body(&tabs));
    assert_eq!(back.len(), 2);
    assert!(same_tab(&back[0], &tabs[0]));
    let mut expected = tabs[1].duplicate();
    expected.query = "tab here".to_string();
    assert!(same_tab(&back[1], &expected));
}

#[test]
fn undo_lines_use_separators() {
    let r = UndoAction::Rename { from: "/a".to_string(), to: "/b".to_string() };
    assert_eq!(undo_line(&r), "rename\u{0}/a\u{0}/b");
    let m = UndoAction::Move {
        pairs: vec![("/a".to_string(), "/c".to_string()), ("/b".to_string(), "/d".to_string())],
    };
    assert_eq!(undo_line(&m), "move\u{0}/a\u{1f}/c\u{1e}/b\u{1f}/d");
    assert_eq!(undo_line(&UndoAction::Trash { count: 3 }), "trash\u{0}3");
}

#[test]
fn undo_parse_reads_known_actions() {
    let body = "rename\u{0}/a\u{0}/b\nbogus\u{0}x\nmove\u{0}/s\u{1f}/d\ntrash\u{0}abc\ntrash\u{0}2\nmove\u{0}nopair\n";
    let s = parse_undo(body);
    assert_eq!(s.len(), 3);
    match &s[0] {
        UndoAction::Rename { from, to } => {
            assert_eq!(from, "/a");
            assert_eq!(to, "/b");
        }
        _ => panic!("expected a rename"),
    }
    match &s[1] {
        UndoAction::Move { pairs } => {
            assert_eq!(pairs.len(), 1);
            assert_eq!(pairs[0].0, "/s");
            assert_eq!(pairs[0].1, "/d");
        }
        _ => panic!("expected a move"),
    }
    match &s[2] {
        UndoAction::Trash { count } => assert_eq!(*count, 2),
        _ => panic!("expected a trash"),
    }
}

#[test]
fn undo_parse_keeps_newest_fifty() {
    let body: Vec<String> = (0..60).map(|i| format!("trash\u{0}{}", i)).collect();
    let s = parse_undo(&body.join("\n"));
    assert_eq!(s.len(), UNDO_CAP);
    match &s[0] {
        UndoAction::Trash { count } => assert_eq!(*count, 10),
        _ => panic!("expected a trash"),
    }
    match &s[49] {
        UndoAction::Trash { count } => assert_eq!(*count, 59),
        _ => panic!("expected a trash"),
    }
}

#[test]
fn undo_push_drops_the_oldest_past_the_cap() {
    let mut stack = Vec::new();
    for i in 0..51 {
        push_undo(&mut stack, UndoAction::Trash { count: i });
    }
    assert_eq!(stack.len(), 50);
    match &stack[0] {
        UndoAction::Trash { count } => assert_eq!(*count, 1),
        _ => panic!("expected a trash"),
    }
}

#[test]
fn undo_roundtrip_on_example() {
    let stack = vec![
        UndoAction::Rename { from: "/x/a".to_string(), to: "/x/b".to_string() },
        UndoAction::Move { pairs: vec![("/p".to_string(), "/q".to_string())] },
        UndoAction::Trash { count: 7 },
    ];
    let body = undo_body(&stack);
    assert_eq!(body, "rename\u{0}/x/a\u{0}/x/b\nmove\u{0}/p\u{1f}/q\ntrash\u{0}7");
    let back = parse_undo(&body);
    assert_eq!(back.len(), 3);
    assert_eq!(undo_body(&back), body);
}

fn pairs(v: &[(&str, &str)]) -> Vec<(String, String)> {
    v.iter().map(|(a, b)| (a.to_string(), b.to_string())).collect()
}

#[test]
fn undo_plan_reverses_each_recorded_move() {
    let r = UndoAction::Rename { from: "/x/a".to_string(), to: "/x/b".to_string() };
    assert_eq!(undo_plan(&r), pairs(&[("/x/b", "/x/a")]));
    let m = UndoAction::Move { pairs: pairs(&[("/a", "/d/a"), ("/b", "/d/b")]) };
    assert_eq!(undo_plan(&m), pairs(&[("/d/a", "/a"), ("/d/b", "/b")]));
    assert!(undo_plan(&UndoAction::Trash { count: 2 }).is_empty());
}

#[test]
fn undoing_a_move_puts_the_files_back() {
    let mut fs: std::collections::BTreeMap<String, u32> = std::collections::BTreeMap::new();
    fs.insert("/a".to_string(), 1);
    fs.insert("/b".to_string(), 2);
    fs.insert("/c".to_string(), 3);
    let before = fs.clone();
    let done = pairs(&[("/a", "/d/a"), ("/b", "/d/b")]);
    let rename = |fs: &mut std::collections::BTreeMap<String, u32>, s: &str, d: &str| {
        if let Some(v) = fs.remove(s) {
            fs.insert(d.to_string(), v);
        }
    };
    for (s, d) in &done {
        rename(&mut fs, s, d);
    }
    assert_ne!(fs, before);
    for (s, d) in undo_plan(&UndoAction::Move { pairs: done.clone() }) {
        rename(&mut fs, &s, &d);
    }
    assert_eq!(fs, before);
}

#[test]
fn undo_reports_say_what_went_back() {
    let r = UndoAction::Rename { from: "/x/a".to_string(), to: "/x/b".to_string() };
    assert_eq!(undo_report(&r, &vec![None]), ("Undid rename".to_string(), false));
    assert_eq!(
        undo_report(&r, &vec![Some("gone".to_string())]),
        ("Undo rename failed: gone".to_string(), true)
    );
    let m = UndoAction::Move { pairs: pairs(&[("/a", "/d/a"), ("/b", "/d/b"), ("/c", "/d/c")]) };
    assert_eq!(undo_report(&m, &vec![None, None, None]), ("Undid move (3)".to_string(), false));
    assert_eq!(
        undo_report(&m, &vec![None, Some("x".to_string()), None]),
        ("Undo move: 2 ok · 1 failed".to_string(), false)
    );
    assert_eq!(
        undo_report(&UndoAction::Trash { count: 1 }, &Vec::new()),
        ("Trash can't be undone here — press ⌘⇧Z in Finder (1 item)".to_string(), false)
    );
}

#[test]
fn undo_takes_the_newest_and_puts_back_a_failed_rename() {
    let older = UndoAction::Trash { count: 2 };
    let r = UndoAction::Rename { from: "/x/a".to_string(), to: "/x/b".to_string() };
    let mut stack = vec![older, r];
    let a = take_undo(&mut stack).unwrap();
    assert_eq!(undo_body(&stack), "trash\u{0}2");
    let msg = finish_undo(&mut stack, a, &vec![Some("gone".to_string())]);
    assert_eq!(msg, "Undo rename failed: gone");
    assert_eq!(undo_body(&stack), "trash\u{0}2\nrename\u{0}/x/a\u{0}/x/b");
    let a = take_undo(&mut stack).unwrap();
    let msg = finish_undo(&mut stack, a, &vec![None]);
    assert_eq!(msg, "Undid rename");
    assert_eq!(undo_body(&stack), "trash\u{0}2");
    let mut empty: Vec<UndoAction> = Vec::new();
    assert!(take_undo(&mut empty).is_none());
}

#[test]
fn an_undo_file_keeps_the_newest_fifty() {
    let stack: Vec<UndoAction> = (0..60).map(|i| UndoAction::Trash { count: i }).collect();
    let back = parse_undo(&undo_body(&stack));
    assert_eq!(back.len(), UNDO_CAP);
    let newest: Vec<UndoAction> = (10..60).map(|i| UndoAction::Trash { count: i }).collect();
    assert_eq!(undo_body(&back), undo_body(&newest));
}

#[test]
fn undo_file_keeps_inner_trailing_spaces() {
    let stack = vec![
        UndoAction::Rename { from: "/x/a ".to_string(), to: "/x/b".to_string() },
        UndoAction::Move { pairs: pairs(&[("/p ", "/q\u{0}r"), ("/s", "/t")]) },
    ];
    let body = undo_body(&stack);
    let back = parse_undo(&body);
    assert_eq!(undo_body(&back), body);
    match &back[0] {
        UndoAction::Rename { from, .. } => assert_eq!(from, "/x/a "),
        _ => panic!("expected a rename"),
    }
}
