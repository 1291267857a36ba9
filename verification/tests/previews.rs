use file_explorer::fileops::batch_rename;
use file_explorer::display::{
    batch_heading, batch_preview, content_counter, empty_list_text, filename_counter,
    hit_positions, name_indices, parent_text, row_name, shows_image_icon, tab_title, tree_click,
    tree_marker, TreeClick,
};
use file_explorer::preview::{
    file_preview, folder_images, folder_listing, grid_caption, listing_caption, preview_ext,
    shows_grid, unreadable_note, wants_thumbnail, FilePreview,
};

fn strings(v: &[&str]) -> Vec<String> {
    v.iter().map(|s| s.to_string()).collect()
}

#[test]
fn preview_extension_is_lower_case() {
    assert_eq!(preview_ext("/a/B.PNG"), "png");
    assert_eq!(preview_ext("/a/.bashrc"), "");
    assert_eq!(preview_ext("/a/archive.tar.GZ"), "gz");
    assert_eq!(preview_ext("/a/noext"), "");
}

#[test]
fn file_previews_by_kind_and_size() {
    assert_eq!(file_preview("/x/a.png", false, 5), FilePreview::Image);
    assert_eq!(file_preview("/x/a.pdf", true, 5), FilePreview::QuickLook);
    assert_eq!(file_preview("/x/a.pdf", false, 5), FilePreview::Binary);
    assert_eq!(file_preview("/x/a.rs", false, 0), FilePreview::Empty);
    assert_eq!(file_preview("/x/a.rs", false, 300000), FilePreview::TooLarge);
    assert_eq!(file_preview("/x/a.rs", false, 262144), FilePreview::Text);
    assert_eq!(file_preview("/x/Makefile", false, 10), FilePreview::Text);
    assert_eq!(file_preview("/x/a.bin", false, 10), FilePreview::Binary);
    assert_eq!(file_preview("/x/noext", false, 10), FilePreview::Text);
}

#[test]
fn preview_notes() {
    assert_eq!(FilePreview::Empty.note(), Some("(empty file)"));
    assert_eq!(FilePreview::TooLarge.note(), Some("(file too large to preview)"));
    assert_eq!(FilePreview::Binary.note(), Some("(binary file — press Space to Quick Look)"));
    assert_eq!(FilePreview::QuickLook.note(), Some("Quick Look preview"));
    assert_eq!(FilePreview::Text.note(), None);
    assert_eq!(unreadable_note(), "(could not read)");
}

#[test]
fn thumbnails_only_for_quick_look_kinds() {
    assert!(wants_thumbnail("/x/a.pdf"));
    assert!(wants_thumbnail("/x/a.MOV"));
    assert!(!wants_thumbnail("/x/a.png"));
    assert!(!wants_thumbnail("/x/a.heic"));
    assert!(!wants_thumbnail("/x/a.rs"));
}

#[test]
fn folder_images_are_image_files_only() {
    let entries = vec![
        ("/d/a.png".to_string(), true),
        ("/d/b.txt".to_string(), true),
        ("/d/c.JPG".to_string(), true),
        ("/d/sub.png".to_string(), false),
    ];
    let imgs = folder_images(&entries);
    assert_eq!(imgs, strings(&["/d/a.png", "/d/c.JPG"]));
    assert!(!shows_grid(&imgs));
    let many: Vec<(String, bool)> = (0..13).map(|i| (format!("/d/{}.png", i), true)).collect();
    let imgs = folder_images(&many);
    assert_eq!(imgs.len(), 12);
    assert_eq!(imgs[11], "/d/11.png");
    assert!(shows_grid(&imgs));
    assert_eq!(grid_caption(12), "12 images in this folder");
}

#[test]
fn folder_listing_is_sorted_and_marks_folders() {
    let entries = vec![("b".to_string(), false), ("a".to_string(), true), ("C".to_string(), false)];
    let l = folder_listing(&entries);
    assert_eq!(l.total, 3);
    assert_eq!(l.shown, strings(&["C", "a/", "b"]));
    let many: Vec<(String, bool)> = (0..50).map(|i| (format!("f{:02}", i), false)).collect();
    let l = folder_listing(&many);
    assert_eq!(l.total, 50);
    assert_eq!(l.shown.len(), 40);
    assert_eq!(l.shown[39], "f39");
    assert_eq!(listing_caption(50), "50 entries");
}

#[test]
fn rows_show_name_and_folder() {
    assert_eq!(row_name("/a/b.txt", "a/b.txt"), "b.txt");
    assert_eq!(row_name("/", "x"), "x");
    assert_eq!(parent_text("src/lib/a.rs"), "src/lib");
    assert_eq!(parent_text("a.rs"), "");
    assert_eq!(name_indices(&[0, 4, 5, 7], "src/main.rs", "main.rs"), vec![0, 1, 3]);
    assert_eq!(name_indices(&[1, 2], "ab", "abc"), vec![1, 2]);
}

#[test]
fn hits_are_found_without_case() {
    assert_eq!(hit_positions("Hello hello", "LL"), vec![2, 3, 8, 9]);
    assert_eq!(hit_positions("aaaa", "aa"), vec![0, 1, 2, 3]);
    assert_eq!(hit_positions("aaa", "aa"), vec![0, 1]);
    assert!(hit_positions("abc", "").is_empty());
    assert!(hit_positions("abc", "x").is_empty());
}

#[test]
fn row_icons_show_small_images() {
    assert!(shows_image_icon("/a/x.png", false, Some(100)));
    assert!(!shows_image_icon("/a/x.png", false, Some(3_000_000)));
    assert!(!shows_image_icon("/a/x.png", false, None));
    assert!(!shows_image_icon("/a/x.png", true, Some(1)));
    assert!(!shows_image_icon("/a/x.rs", false, Some(1)));
}

#[test]
fn counters_and_empty_list_texts() {
    assert_eq!(filename_counter(3, 10, false), "3 / 10 · scanning…");
    assert_eq!(filename_counter(3, 10, true), "3 / 10");
    assert_eq!(content_counter(1, true), "1 match");
    assert_eq!(content_counter(7, false), "7 match · scanning…");
    assert_eq!(
        empty_list_text(""),
        (
            "Indexing files…".to_string(),
            "If this stays empty, try ⌘H to show hidden files.".to_string()
        )
    );
    assert_eq!(
        empty_list_text("zz"),
        (
            "No matches for “zz”".to_string(),
            "Try a shorter query or ⌘H to include hidden files.".to_string()
        )
    );
    assert_eq!(batch_heading(1), "BATCH RENAME · 1 item");
    assert_eq!(batch_heading(2), "BATCH RENAME · 2 items");
}

#[test]
fn tab_titles_use_the_folder_name() {
    assert_eq!(tab_title("/Users/me/code", "/Users/me"), "code");
    assert_eq!(tab_title("/", "/Users/me"), "/");
}

#[test]
fn batch_preview_shows_up_to_five() {
    let p = batch_preview("img/pic", &strings(&["/a/img1.png", "/a/x.txt"]));
    assert_eq!(
        p,
        vec![
            ("img1.png".to_string(), "pic1.png".to_string()),
            ("x.txt".to_string(), "x.txt".to_string())
        ]
    );
    assert!(batch_preview("/x", &strings(&["/a/b"])).is_empty());
    assert!(batch_preview("nopattern", &strings(&["/a/b"])).is_empty());
    let seven: Vec<String> = (0..7).map(|i| format!("/a/f{}", i)).collect();
    assert_eq!(batch_preview("f/g", &seven).len(), 5);
}

#[test]
fn tree_rows_and_clicks() {
    assert_eq!(tree_marker(true, true), "▾");
    assert_eq!(tree_marker(true, false), "▸");
    assert_eq!(tree_marker(false, true), " ");
    assert_eq!(tree_click(true, 2), TreeClick::Enter);
    assert_eq!(tree_click(true, 1), TreeClick::Toggle);
    assert_eq!(tree_click(false, 2), TreeClick::Open);
    assert_eq!(tree_click(false, 1), TreeClick::Ignore);
}

#[test]
fn batch_preview_matches_what_the_rename_does() {
    let marked = strings(&["/a/img1.png", "/a/x.txt", "/a/imgimg.jpg"]);
    let preview = batch_preview("img/pic", &marked);
    assert_eq!(preview.len(), 3);
    for (name, shown) in &preview {
        let renamed = batch_rename(name, "img", "pic");
        if shown == name {
            assert_eq!(renamed, None);
        } else {
            assert_eq!(renamed.as_deref(), Some(shown.as_str()));
        }
    }
}
