use file_explorer::paths::paths_equal;
use file_explorer::tree::{Listed, TreeNode};

fn entry(name: &str, path: &str, is_dir: bool) -> Listed {
    Listed { name: name.to_string(), path: path.to_string(), is_dir }
}

fn root_listing() -> Vec<Listed> {
    vec![
        entry("b.txt", "/r/b.txt", false),
        entry(".hidden", "/r/.hidden", true),
        entry("zdir", "/r/zdir", true),
        entry("adir", "/r/adir", true),
        entry("a.txt", "/r/a.txt", false),
    ]
}

fn opened_root() -> TreeNode {
    let mut t = TreeNode::new("/r".to_string(), true);
    t.load_children(&root_listing());
    t.expanded = true;
    t
}

fn rows(t: &TreeNode) -> Vec<(usize, String, bool, bool)> {
    let mut out = Vec::new();
    t.flatten(0, &mut out);
    out
}

fn row(depth: usize, path: &str, is_dir: bool, expanded: bool) -> (usize, String, bool, bool) {
    (depth, path.to_string(), is_dir, expanded)
}

#[test]
fn new_node_is_closed_and_unlisted() {
    let t = TreeNode::new("/r".to_string(), true);
    assert!(!t.expanded);
    assert!(t.children.is_none());
    assert_eq!(rows(&t), vec![row(0, "/r", true, false)]);
}

#[test]
fn children_are_folders_first_then_by_name_without_hidden() {
    let t = opened_root();
    assert_eq!(
        rows(&t),
        vec![
            row(0, "/r", true, true),
            row(1, "/r/adir", true, false),
            row(1, "/r/zdir", true, false),
            row(1, "/r/a.txt", false, false),
            row(1, "/r/b.txt", false, false),
        ]
    );
}

#[test]
fn listed_children_are_kept() {
    let mut t = opened_root();
    t.load_children(&vec![entry("other", "/r/other", true)]);
    assert_eq!(t.children.as_ref().map(|c| c.len()), Some(4));
}

#[test]
fn toggle_opens_a_folder_with_its_listing() {
    let mut t = opened_root();
    assert!(t.needs_listing("/r/zdir"));
    let inner = vec![entry("c", "/r/zdir/c", false)];
    assert!(t.toggle_at("/r/zdir", true, &inner));
    assert!(!t.needs_listing("/r/zdir"));
    assert_eq!(
        rows(&t),
        vec![
            row(0, "/r", true, true),
            row(1, "/r/adir", true, false),
            row(1, "/r/zdir", true, true),
            row(2, "/r/zdir/c", false, false),
            row(1, "/r/a.txt", false, false),
            row(1, "/r/b.txt", false, false),
        ]
    );
}

#[test]
fn toggle_twice_restores_the_rows() {
    let mut t = opened_root();
    let before = rows(&t);
    let inner = vec![entry("c", "/r/zdir/c", false)];
    assert!(t.toggle_at("/r/zdir", true, &inner));
    assert!(t.toggle_at("/r/zdir", true, &Vec::new()));
    assert_eq!(rows(&t), before);
    // Opened again, the folder keeps the children it listed first.
    assert!(t.toggle_at("/r/zdir", true, &Vec::new()));
    assert!(rows(&t).contains(&row(2, "/r/zdir/c", false, false)));
}

#[test]
fn toggle_on_a_file_or_a_missing_path_changes_nothing() {
    let mut t = opened_root();
    let before = rows(&t);
    assert!(t.toggle_at("/r/a.txt", false, &Vec::new()));
    assert_eq!(rows(&t), before);
    assert!(!t.toggle_at("/elsewhere", true, &root_listing()));
    assert_eq!(rows(&t), before);
    assert!(!t.is_target("/elsewhere"));
    assert!(!t.needs_listing("/elsewhere"));
}

#[test]
fn toggle_matches_paths_by_components() {
    let mut t = opened_root();
    assert!(t.is_target("/r//adir/"));
    assert!(t.toggle_at("/r/./adir", true, &Vec::new()));
    assert!(rows(&t).contains(&row(1, "/r/adir", true, true)));
}

#[test]
fn closing_the_root_hides_everything_below() {
    let mut t = opened_root();
    assert!(t.toggle_at("/r", true, &Vec::new()));
    assert_eq!(rows(&t), vec![row(0, "/r", true, false)]);
}

#[test]
fn paths_compare_by_components() {
    assert!(paths_equal("/a/b", "/a//b/"));
    assert!(paths_equal("a/./b", "a/b"));
    assert!(!paths_equal("/a/b", "a/b"));
    assert!(!paths_equal("/a/b/..", "/a"));
}
