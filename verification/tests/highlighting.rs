use syntect::easy::HighlightLines;
use syntect::highlighting::ThemeSet;
use file_explorer::highlight::{
    highlight_lines, highlight_one, spans_from_pieces, split_with_endings, Span, SyntaxAssets,
};

fn text_of(row: &[Span]) -> String {
    row.iter().map(|s| s.text.as_str()).collect()
}

fn clean(row: &[Span]) -> bool {
    row.iter().all(|s| !s.text.is_empty() && !s.text.contains('\n'))
}

#[test]
fn assets_load_with_a_plain_text_fallback() {
    assert!(SyntaxAssets::load().is_some());
}

#[test]
fn rows_spell_out_each_line() {
    let a = SyntaxAssets::load().unwrap();
    let content = "fn main() {}\nlet x = \"a\";\r\n\nlast";
    let rows = highlight_lines(&a, content, "rs", 60);
    assert_eq!(rows.len(), 4);
    assert_eq!(text_of(&rows[0]), "fn main() {}");
    assert_eq!(text_of(&rows[1]), "let x = \"a\";\r");
    assert_eq!(text_of(&rows[2]), "");
    assert_eq!(text_of(&rows[3]), "last");
    assert!(rows.iter().all(|r| clean(r)));
}

#[test]
fn rust_code_gets_more_than_one_colour() {
    let a = SyntaxAssets::load().unwrap();
    let rows = highlight_lines(&a, "fn main() { let x = 1; }", "rs", 60);
    assert_eq!(rows.len(), 1);
    assert!(rows[0].len() > 1);
    let first = rows[0][0].rgb;
    assert!(rows[0].iter().any(|s| s.rgb != first));
}

#[test]
fn highlighting_stops_after_max_lines() {
    let a = SyntaxAssets::load().unwrap();
    let rows = highlight_lines(&a, "a\nb\nc\n", "txt", 2);
    assert_eq!(rows.len(), 2);
    assert_eq!(text_of(&rows[1]), "b");
    assert!(highlight_lines(&a, "", "rs", 60).is_empty());
    assert!(highlight_lines(&a, "abc", "rs", 0).is_empty());
}

#[test]
fn unknown_extension_falls_back_and_keeps_text() {
    let a = SyntaxAssets::load().unwrap();
    let rows = highlight_lines(&a, "#!/bin/sh\necho hi\n", "zzz-unknown", 60);
    assert_eq!(rows.len(), 2);
    assert_eq!(text_of(&rows[0]), "#!/bin/sh");
    assert_eq!(text_of(&rows[1]), "echo hi");
}

#[test]
fn highlight_one_gives_the_first_line() {
    let a = SyntaxAssets::load().unwrap();
    let spans = highlight_one(&a, "let y = 2;\nignored", "rs");
    assert_eq!(text_of(&spans), "let y = 2;");
    assert!(clean(&spans));
    assert!(highlight_one(&a, "", "rs").is_empty());
}

#[test]
fn pieces_are_trimmed_and_empty_ones_dropped() {
    let pieces = vec![
        ("ab\n".to_string(), (1, 2, 3)),
        ("".to_string(), (0, 0, 0)),
        ("\n".to_string(), (4, 5, 6)),
        ("c".to_string(), (7, 8, 9)),
    ];
    let spans = spans_from_pieces(pieces);
    assert_eq!(spans.len(), 2);
    assert_eq!(spans[0].text, "ab");
    assert_eq!(spans[0].rgb, (1, 2, 3));
    assert_eq!(spans[1].text, "c");
    assert_eq!(spans[1].rgb, (7, 8, 9));
}

#[test]
fn lines_keep_their_endings() {
    let v: Vec<char> = "foo\nbar\nbaz".chars().collect();
    let lines: Vec<String> =
        split_with_endings(&v).into_iter().map(|l| l.into_iter().collect()).collect();
    assert_eq!(lines, vec!["foo\n", "bar\n", "baz"]);
    let w: Vec<char> = "x\n".chars().collect();
    assert_eq!(split_with_endings(&w).len(), 1);
    assert!(split_with_endings(&[]).is_empty());
}

#[test]
fn bundled_syntax_names_are_distinct() {
    // Syntaxes are looked up again by name, so each name must pick one syntax.
    let ss = two_face::syntax::extra_no_newlines();
    let mut names: Vec<&str> = ss.syntaxes().iter().map(|s| s.name.as_str()).collect();
    let n = names.len();
    names.sort();
    names.dedup();
    assert_eq!(names.len(), n);
    assert!(ss.find_syntax_by_name("Plain Text").is_some());
}

#[test]
fn unknown_text_is_plain_and_first_lines_pick_a_syntax() {
    let a = SyntaxAssets::load().unwrap();
    let plain = highlight_lines(&a, "fn main() { let x = 1; }", "zzz-unknown", 60);
    let first = plain[0][0].rgb;
    assert!(plain[0].iter().all(|s| s.rgb == first));
    let script = highlight_lines(&a, "#!/bin/bash\necho \"hi\" $HOME\n", "", 60);
    assert_eq!(script.len(), 2);
    let c = script[1][0].rgb;
    assert!(script[1].iter().any(|s| s.rgb != c));
}

#[test]
fn the_mocha_theme_colours_rust_as_syntect_does() {
    let a = SyntaxAssets::load().unwrap();
    let ss = two_face::syntax::extra_no_newlines();
    let ts = ThemeSet::load_defaults();
    let syntax = ss.find_syntax_by_extension("rs").unwrap();
    let mut h = HighlightLines::new(syntax, &ts.themes["base16-mocha.dark"]);
    let want: Vec<(String, (u8, u8, u8))> = h
        .highlight_line("fn main() {}", &ss)
        .unwrap()
        .into_iter()
        .filter(|(_, t)| !t.is_empty())
        .map(|(s, t)| (t.to_string(), (s.foreground.r, s.foreground.g, s.foreground.b)))
        .collect();
    let got: Vec<(String, (u8, u8, u8))> = highlight_one(&a, "fn main() {}", "rs")
        .into_iter()
        .map(|s| (s.text, s.rgb))
        .collect();
    assert_eq!(got, want);
}
