use file_explorer::explorer::{
    clamp_selected, initial_view, move_selection, push_recent, toggle_bookmark, wants_content_search,
    ContentSearchAction, Marks, Tabs, ViewState, RECENTS_MAX,
};
use file_explorer::keys::{key_command, popped_query, Command};
use file_explorer::edit::KeyStroke;
use file_explorer::overlay::Mode;
use file_explorer::session::{SearchMode, SortMode, TabSnapshot};
use file_explorer::settings::Settings;

fn tab(root: &str) -> TabSnapshot {
    TabSnapshot {
        root: root.to_string(),
        query: String::new(),
        search_mode: SearchMode::Filename,
        sort: SortMode::Relevance,
        selected: 0,
        viewport_start: 0,
        show_hidden: false,
    }
}

fn roots(t: &Tabs) -> Vec<String> {
    t.tabs.iter().map(|s| s.root.clone()).collect()
}

fn view(root: &str) -> ViewState {
    ViewState {
        root: root.to_string(),
        query: "q".to_string(),
        search_mode: SearchMode::Content,
        sort: SortMode::Size,
        selected: 4,
        viewport_start: 2,
        show_hidden: true,
        marks: Marks::new(),
    }
}

#[test]
fn new_tab_opens_home_after_the_others() {
    let mut t = Tabs::new(tab("/a"));
    let mut live = tab("/a/b");
    live.sort = SortMode::Name;
    live.show_hidden = true;
    let shown = t.new_tab(live, "/home".to_string());
    assert_eq!(roots(&t), vec!["/a/b", "/home"]);
    assert_eq!(t.active, 1);
    assert_eq!(shown.root, "/home");
    assert_eq!(shown.sort, SortMode::Name);
    assert!(shown.show_hidden);
    assert_eq!(shown.query, "");
}

#[test]
fn close_tab_keeps_one_and_moves_left_at_the_end() {
    let mut t = Tabs::new(tab("/a"));
    assert!(t.close_tab().is_none());
    t.new_tab(tab("/a"), "/b".to_string());
    t.new_tab(tab("/b"), "/c".to_string());
    assert_eq!(t.active, 2);
    let shown = t.close_tab().unwrap();
    assert_eq!(roots(&t), vec!["/a", "/b"]);
    assert_eq!(t.active, 1);
    assert_eq!(shown.root, "/b");
}

#[test]
fn switch_tab_saves_the_live_state() {
    let mut t = Tabs::new(tab("/a"));
    t.new_tab(tab("/a"), "/b".to_string());
    let shown = t.switch_tab(0, tab("/b/deeper")).unwrap();
    assert_eq!(shown.root, "/a");
    assert_eq!(roots(&t), vec!["/a", "/b/deeper"]);
    assert_eq!(t.active, 0);
    assert!(t.switch_tab(0, tab("/x")).is_none());
    assert!(t.switch_tab(9, tab("/x")).is_none());
}

#[test]
fn next_then_previous_tab_returns() {
    let mut t = Tabs::new(tab("/a"));
    t.new_tab(tab("/a"), "/b".to_string());
    t.new_tab(tab("/b"), "/c".to_string());
    let n = t.next_tab(tab("/c")).unwrap();
    assert_eq!(t.active, 0);
    assert_eq!(n.root, "/a");
    let p = t.prev_tab(tab("/a")).unwrap();
    assert_eq!(t.active, 2);
    assert_eq!(p.root, "/c");
    let mut single = Tabs::new(tab("/only"));
    assert!(single.next_tab(tab("/only")).is_none());
    assert!(single.prev_tab(tab("/only")).is_none());
}

#[test]
fn marks_toggle_twice_restores() {
    let mut m = Marks::new();
    m.toggle_mark(3);
    assert!(m.marked.contains(&3));
    assert_eq!(m.last_anchor, 3);
    m.toggle_mark(3);
    assert!(m.marked.is_empty());
}

#[test]
fn mark_range_covers_both_ends() {
    let mut m = Marks::new();
    m.toggle_mark(5);
    m.mark_range(2);
    assert_eq!(m.marked.iter().copied().collect::<Vec<_>>(), vec![2, 3, 4, 5]);
    m.mark_range(7);
    assert_eq!(m.marked.iter().copied().collect::<Vec<_>>(), vec![2, 3, 4, 5, 6, 7]);
    m.clear();
    assert!(m.marked.is_empty());
    m.select_all(3);
    assert_eq!(m.marked.iter().copied().collect::<Vec<_>>(), vec![0, 1, 2]);
}

#[test]
fn move_selection_is_clamped() {
    assert_eq!(move_selection(0, -1, 5), Some(0));
    assert_eq!(move_selection(3, 10, 5), Some(4));
    assert_eq!(move_selection(2, 1, 5), Some(3));
    assert_eq!(move_selection(2, 1, 0), None);
}

#[test]
fn clamp_selected_after_results_shrink() {
    assert_eq!(clamp_selected(7, 3), 2);
    assert_eq!(clamp_selected(7, 0), 0);
    assert_eq!(clamp_selected(1, 3), 1);
}

#[test]
fn recents_put_the_root_first_once() {
    let mut r: Vec<String> = vec!["/b".to_string(), "/a".to_string(), "/c".to_string()];
    push_recent(&mut r, "/a".to_string());
    assert_eq!(r, vec!["/a", "/b", "/c"]);
    let mut long: Vec<String> = (0..8).map(|i| format!("/{}", i)).collect();
    push_recent(&mut long, "/new".to_string());
    assert_eq!(long.len(), RECENTS_MAX);
    assert_eq!(long[0], "/new");
    assert_eq!(long[7], "/6");
}

#[test]
fn bookmark_toggles_in_and_out() {
    let mut b: Vec<String> = vec!["/x".to_string()];
    assert!(toggle_bookmark(&mut b, &"/y".to_string()));
    assert_eq!(b, vec!["/y", "/x"]);
    assert!(!toggle_bookmark(&mut b, &"/x".to_string()));
    assert_eq!(b, vec!["/y"]);
}

#[test]
fn content_search_needs_two_bytes() {
    assert!(!wants_content_search(&" a ".to_string()));
    assert!(wants_content_search(&"ab".to_string()));
    assert!(wants_content_search(&"é".to_string()));
}

#[test]
fn restore_then_snapshot_gives_the_tab_back() {
    let mut v = view("/r");
    v.marks.toggle_mark(1);
    let mut t = tab("/s");
    t.query = "zz".to_string();
    t.sort = SortMode::Modified;
    t.selected = 9;
    let restart = v.restore(&t);
    assert!(!restart);
    assert!(v.marks.marked.is_empty());
    let s = v.snapshot();
    assert_eq!(s.root, "/s");
    assert_eq!(s.query, "zz");
    assert_eq!(s.sort, SortMode::Modified);
    assert_eq!(s.selected, 9);
    assert_eq!(s.search_mode, SearchMode::Filename);
}

#[test]
fn rewalk_resets_the_search() {
    let mut v = view("/r");
    v.rewalk("/new".to_string());
    assert_eq!(v.root, "/new");
    assert_eq!(v.query, "");
    assert_eq!(v.search_mode, SearchMode::Filename);
    assert_eq!(v.selected, 0);
    assert_eq!(v.sort, SortMode::Size);
    assert!(v.show_hidden);
}

#[test]
fn query_and_mode_changes() {
    let mut v = view("/r");
    assert!(v.update_query("abc".to_string()));
    assert_eq!(v.selected, 0);
    assert_eq!(v.toggle_content_search(), ContentSearchAction::Stop);
    assert_eq!(v.search_mode, SearchMode::Filename);
    assert_eq!(v.toggle_content_search(), ContentSearchAction::Restart);
    assert!(!view("/r").restore(&tab("/t")));
}

#[test]
fn ascend_goes_to_the_parent_folder() {
    let mut v = view("/a/b");
    assert!(v.ascend());
    assert_eq!(v.root, "/a");
    assert_eq!((v.query.as_str(), v.search_mode, v.selected, v.viewport_start), ("", SearchMode::Filename, 0, 0));
    assert_eq!(v.sort, SortMode::Size);
    assert!(v.ascend());
    assert_eq!(v.root, "/");
    assert!(!v.ascend());
    assert_eq!(v.root, "/");
}

#[test]
fn backspace_pops_the_query_or_goes_up() {
    let bs = KeyStroke {
        key: "backspace".to_string(),
        shift: false,
        platform: false,
        alt: false,
        control: false,
        key_char: None,
    };
    let mut v = view("/a/b");
    v.selected = 3;
    assert_eq!(key_command(Mode::Search, false, &bs, v.query.is_empty()), Command::PopQuery);
    let q = popped_query(&v.query);
    v.update_query(q);
    assert_eq!((v.query.as_str(), v.selected, v.viewport_start), ("", 0, 0));
    assert_eq!(key_command(Mode::Search, false, &bs, v.query.is_empty()), Command::Ascend);
    assert!(v.ascend());
    assert_eq!(v.root, "/a");
}

#[test]
fn the_first_view_follows_the_settings() {
    let s = Settings { show_hidden: true, sort: "size".to_string() };
    let (tabs, v) = initial_view("/r".to_string(), &s);
    assert_eq!((tabs.tabs.len(), tabs.active), (1, 0));
    assert_eq!(tabs.tabs[0].root, "/r");
    assert_eq!(tabs.tabs[0].sort, SortMode::Size);
    assert!(tabs.tabs[0].show_hidden);
    assert_eq!((v.root.as_str(), v.sort, v.show_hidden, v.selected), ("/r", SortMode::Size, true, 0));
    let plain = Settings { show_hidden: false, sort: "odd".to_string() };
    assert_eq!(initial_view("/r".to_string(), &plain).1.sort, SortMode::Relevance);
}
