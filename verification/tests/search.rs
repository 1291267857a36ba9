use file_explorer::content::{
    after_hit, content_match, should_search, snippet, ContentMatch, ContentSearch, HitStep, Received,
    MAX_FILE_BYTES, SNIPPET_BYTES,
};
use file_explorer::index::{display_for, highlight_runs, path_entry, Index, PathEntry, PathMatcher};
use std::sync::atomic::{AtomicBool, Ordering};
use std::sync::Arc;

#[test]
fn only_files_within_the_size_limit_are_searched() {
    assert!(should_search(true, Some(10)));
    assert!(should_search(true, Some(MAX_FILE_BYTES)));
    assert!(!should_search(true, Some(MAX_FILE_BYTES + 1)));
    assert!(should_search(true, None));
    assert!(!should_search(false, Some(1)));
}

#[test]
fn snippet_drops_line_breaks_and_cuts() {
    assert_eq!(snippet("hello\n\n"), "hello");
    assert_eq!(snippet("x\r\n"), "x\r");
    let long = "a".repeat(300);
    assert_eq!(snippet(&long), "a".repeat(SNIPPET_BYTES));
    let short = "é".repeat(120);
    assert_eq!(snippet(&short), short);
}

#[test]
fn content_match_keeps_path_and_line() {
    let m: ContentMatch = content_match("/p/f.rs".to_string(), 12, "let x = 1;\n");
    assert_eq!(m.path, "/p/f.rs");
    assert_eq!(m.line, 12);
    assert_eq!(m.text, "let x = 1;");
}

#[test]
fn hits_per_file_and_overall_limit() {
    assert_eq!(after_hit(0, 3, 100), (1, HitStep::NextHit));
    assert_eq!(after_hit(3, 3, 100), (4, HitStep::NextHit));
    assert_eq!(after_hit(4, 3, 100), (5, HitStep::NextFile));
    assert_eq!(after_hit(0, 100, 100), (1, HitStep::NextHit));
    assert_eq!(after_hit(0, 101, 100), (1, HitStep::Stop));
}

#[test]
fn drain_collects_in_order_and_notices_the_end() {
    let flag = Arc::new(AtomicBool::new(false));
    let (mut search, tx) = ContentSearch::open(flag.clone());
    assert!(!search.drain());
    assert!(!search.done);
    tx.send(content_match("/a".to_string(), 1, "one")).unwrap();
    tx.send(content_match("/b".to_string(), 2, "two")).unwrap();
    assert!(search.drain());
    assert_eq!(search.matches.len(), 2);
    assert_eq!(search.matches[0].path, "/a");
    assert_eq!(search.matches[1].text, "two");
    assert_eq!(search.scanned, 2);
    drop(tx);
    assert!(!search.drain());
    assert!(search.done);
    search.cancel();
    assert!(flag.load(Ordering::Relaxed));
}

#[test]
fn display_is_the_part_under_the_root() {
    assert_eq!(display_for("/root/a/b.txt", "/root"), "a/b.txt");
    assert_eq!(display_for("/root/a", "/root/"), "a");
    assert_eq!(display_for("/other/a", "/root"), "/other/a");
    assert_eq!(display_for("/rootless", "/root"), "/rootless");
    let e: PathEntry = path_entry("/r/x".to_string(), "/r", true);
    assert_eq!(e.display, "x");
    assert!(e.is_dir);
}

#[test]
fn index_ranks_injected_entries() {
    let mut index = Index::new();
    assert!(index.results(10).is_empty());
    let injector = index.injector();
    for p in ["src/main.rs", "src/lib.rs", "README.md"] {
        let e = Arc::new(path_entry(format!("/r/{}", p), "/r", false));
        injector.push(e, |e, cols| cols[0] = nucleo::Utf32String::from(e.display.as_str()));
    }
    index.set_query("main");
    let mut found = Vec::new();
    for _ in 0..200 {
        index.tick();
        found = index.results(10);
        if !found.is_empty() {
            break;
        }
    }
    assert_eq!(found.len(), 1);
    assert_eq!(found[0].display, "src/main.rs");
    assert!(index.results(0).is_empty());
}

#[test]
fn matcher_marks_the_matched_characters() {
    let mut m = PathMatcher::new();
    assert!(m.match_indices("", "src/main.rs").is_empty());
    assert_eq!(m.match_indices("main", "src/main.rs"), vec![4, 5, 6, 7]);
    assert!(m.match_indices("zzz", "src/main.rs").is_empty());
}

#[test]
fn runs_split_where_highlighting_changes() {
    let runs = highlight_runs("abcd", &[1, 2]);
    assert_eq!(
        runs,
        vec![("a".to_string(), false), ("bc".to_string(), true), ("d".to_string(), false)]
    );
    assert_eq!(highlight_runs("ab", &[]), vec![("ab".to_string(), false)]);
    assert_eq!(highlight_runs("ab", &[0, 1]), vec![("ab".to_string(), true)]);
    assert!(highlight_runs("", &[0]).is_empty());
    let name = "src/main.rs";
    let joined: String = highlight_runs(name, &[4, 5, 6, 7]).into_iter().map(|r| r.0).collect();
    assert_eq!(joined, name);
}

#[test]
fn absorb_takes_one_look_at_the_stream() {
    let (mut search, _tx) = ContentSearch::open(Arc::new(AtomicBool::new(false)));
    assert!(search.absorb(Received::Match(content_match("/a".to_string(), 3, "x"))));
    assert_eq!((search.matches.len(), search.scanned, search.done), (1, 1, false));
    assert!(!search.absorb(Received::Empty));
    assert_eq!((search.matches.len(), search.scanned, search.done), (1, 1, false));
    assert!(!search.absorb(Received::Disconnected));
    assert_eq!((search.matches.len(), search.scanned, search.done), (1, 1, true));
    search.scanned = u64::MAX;
    assert!(search.absorb(Received::Match(content_match("/b".to_string(), 4, "y"))));
    assert_eq!(search.scanned, u64::MAX);
}
