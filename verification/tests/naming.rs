use file_explorer::names::{
    extension_of, file_icon, format_time, format_time_at, is_image, is_quicklookable, is_textual,
};
use file_explorer::paths::{
    branch_from_head, clickable_breadcrumb, clipboard_paths, expand_tilde, join, saved_paths, short_path,
    thumb_file_name, thumb_key,
};

#[test]
fn folders_get_icons_by_name() {
    assert_eq!(file_icon(true, ".git"), "🌳");
    assert_eq!(file_icon(true, "node_modules"), "📦");
    assert_eq!(file_icon(true, "build"), "🛠️");
    assert_eq!(file_icon(true, "Music"), "🎵");
    assert_eq!(file_icon(true, "music"), "📁");
    assert_eq!(file_icon(true, "main.rs"), "📁");
}

#[test]
fn files_get_icons_by_extension_ignoring_case() {
    assert_eq!(file_icon(false, "main.RS"), "🦀");
    assert_eq!(file_icon(false, "photo.JPeG"), "🖼️");
    assert_eq!(file_icon(false, "archive.tar.gz"), "📦");
    assert_eq!(file_icon(false, "notes.md"), "📝");
    assert_eq!(file_icon(false, "data.json5"), "🧾");
    assert_eq!(file_icon(false, ".gitignore"), "🌳");
    assert_eq!(file_icon(false, "Makefile"), "📄");
    assert_eq!(file_icon(false, "rs"), "🦀");
    assert_eq!(file_icon(false, "noext."), "📄");
}

#[test]
fn extension_is_after_the_last_dot() {
    assert_eq!(extension_of("a.b.c"), "c");
    assert_eq!(extension_of("noext"), "noext");
    assert_eq!(extension_of("trailing."), "");
    assert_eq!(extension_of(""), "");
}

#[test]
fn preview_kinds_by_extension() {
    assert!(is_image("png"));
    assert!(is_image("svg"));
    assert!(is_image("avif"));
    assert!(is_image("heic"));
    assert!(is_image("qoi"));
    assert!(!is_image("PNG"));
    assert!(is_quicklookable("pdf"));
    assert!(is_quicklookable("numbers"));
    assert!(!is_quicklookable("rs"));
    assert!(is_textual(""));
    assert!(is_textual("makefile"));
    assert!(!is_textual("pdf"));
}

#[test]
fn ages_use_the_largest_fitting_unit() {
    assert_eq!(format_time_at(100, 130), "30s ago");
    assert_eq!(format_time_at(0, 59), "59s ago");
    assert_eq!(format_time_at(0, 60), "1m ago");
    assert_eq!(format_time_at(0, 3599), "59m ago");
    assert_eq!(format_time_at(0, 3600), "1h ago");
    assert_eq!(format_time_at(0, 86399), "23h ago");
    assert_eq!(format_time_at(0, 86400), "1d ago");
    assert_eq!(format_time_at(0, 86400 * 30 - 1), "29d ago");
    assert_eq!(format_time_at(0, 86400 * 45), "1mo ago");
    assert_eq!(format_time_at(200, 100), "0s ago");
    assert_eq!(format_time_at(0, u64::MAX), "-1s ago");
}

#[test]
fn age_by_the_clock_is_recent_for_now() {
    let now = std::time::SystemTime::now()
        .duration_since(std::time::UNIX_EPOCH)
        .unwrap()
        .as_secs();
    let s = format_time(now);
    assert!(s.ends_with("s ago"));
}

#[test]
fn short_path_abbreviates_home() {
    assert_eq!(short_path("/Users/me/code", "/Users/me"), "~/code");
    assert_eq!(short_path("/Users/me", "/Users/me"), "~");
    assert_eq!(short_path("/Users/meow", "/Users/me"), "~ow");
    assert_eq!(short_path("/x", ""), "/x");
    assert_eq!(short_path("/x", "/y"), "/x");
}

#[test]
fn join_adds_one_separator() {
    assert_eq!(join("/a", "b"), "/a/b");
    assert_eq!(join("/a/", "b"), "/a/b");
    assert_eq!(join("", "b"), "b");
    assert_eq!(join("/a", "/b"), "/b");
    assert_eq!(join("/a", ""), "/a/");
}

#[test]
fn tilde_expands_to_home() {
    let home = Some("/Users/me");
    assert_eq!(expand_tilde("  ~/docs ", home), Some("/Users/me/docs".to_string()));
    assert_eq!(expand_tilde("~", home), Some("/Users/me".to_string()));
    assert_eq!(expand_tilde("~///a", Some("/h/")), Some("/h/a".to_string()));
    assert_eq!(expand_tilde("~x", Some("/h")), Some("/h/x".to_string()));
    assert_eq!(expand_tilde("~/a", None), None);
    assert_eq!(expand_tilde("   ", home), None);
    assert_eq!(expand_tilde(" /abs/path", None), Some("/abs/path".to_string()));
}

#[test]
fn branch_from_git_head() {
    assert_eq!(branch_from_head("ref: refs/heads/main\n"), "main");
    assert_eq!(branch_from_head("ref: refs/heads/feature/x"), "feature/x");
    assert_eq!(branch_from_head("0123456789abcdef\n"), "0123456");
    assert_eq!(branch_from_head("abc"), "abc");
}

#[test]
fn breadcrumb_under_home_starts_with_tilde() {
    let c = clickable_breadcrumb("/Users/me/code/app", Some("/Users/me"));
    let expected: Vec<(String, Option<String>)> = vec![
        ("~".to_string(), Some("/Users/me".to_string())),
        (" › ".to_string(), None),
        ("code".to_string(), Some("/Users/me/code".to_string())),
        (" › ".to_string(), None),
        ("app".to_string(), Some("/Users/me/code/app".to_string())),
    ];
    assert_eq!(c, expected);
}

#[test]
fn breadcrumb_elsewhere_starts_at_root() {
    let c = clickable_breadcrumb("/usr/bin", Some("/Users/me"));
    let expected: Vec<(String, Option<String>)> = vec![
        ("/".to_string(), Some("/".to_string())),
        (" › ".to_string(), None),
        ("usr".to_string(), Some("/usr".to_string())),
        (" › ".to_string(), None),
        ("bin".to_string(), Some("/usr/bin".to_string())),
    ];
    assert_eq!(c, expected);
    assert_eq!(clickable_breadcrumb("/", None), vec![("/".to_string(), Some("/".to_string()))]);
}

#[test]
fn thumbnail_names_hash_the_path() {
    assert_eq!(thumb_key(""), 1469598103934665603);
    assert_eq!(thumb_key("a"), 0x44bd8ad473cd9906);
    assert_eq!(thumb_file_name("a"), "44bd8ad473cd9906.png");
    assert_eq!(thumb_file_name(""), "14650fb0739d0383.png");
}

#[test]
fn pasted_paths_are_trimmed_lines() {
    assert_eq!(clipboard_paths(" /a \n\n/b\r\n  "), vec!["/a", "/b"]);
    assert!(clipboard_paths("").is_empty());
}

#[test]
fn saved_paths_keep_nonblank_lines_as_written() {
    assert_eq!(saved_paths("/a\n   \n /b \n"), vec!["/a", " /b "]);
    assert!(saved_paths("\n\n").is_empty());
}
