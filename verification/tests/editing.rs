use file_explorer::edit::{
    handle_text_edit, next_boundary, next_word, prev_boundary, prev_word, selection_range,
    KeyStroke,
};

fn key(k: &str) -> KeyStroke {
    KeyStroke {
        key: k.to_string(),
        shift: false,
        platform: false,
        alt: false,
        control: false,
        key_char: None,
    }
}

fn typed(c: &str) -> KeyStroke {
    KeyStroke { key_char: Some(c.to_string()), ..key(c) }
}

struct Field {
    text: String,
    cursor: usize,
    anchor: Option<usize>,
}

fn field(text: &str, cursor: usize, anchor: Option<usize>) -> Field {
    Field { text: text.to_string(), cursor, anchor }
}

fn press(f: &mut Field, ev: &KeyStroke, clipboard: Option<&str>) -> (bool, Option<String>) {
    let out = handle_text_edit(
        &mut f.text,
        &mut f.cursor,
        &mut f.anchor,
        ev,
        clipboard.map(|s| s.to_string()),
    );
    (out.changed, out.copied)
}

#[test]
fn boundaries_step_over_multibyte_characters() {
    let s = "héllo";
    assert_eq!(prev_boundary(s, 3), 1);
    assert_eq!(next_boundary(s, 1), 3);
    assert_eq!(prev_boundary(s, 0), 0);
    assert_eq!(next_boundary(s, 6), 6);
    assert_eq!(prev_boundary(s, 99), 0);
}

#[test]
fn words_skip_whitespace_then_the_word() {
    let s = "foo bar  baz";
    assert_eq!(prev_word(s, 12), 9);
    assert_eq!(prev_word(s, 9), 4);
    assert_eq!(prev_word(s, 0), 0);
    assert_eq!(next_word(s, 0), 4);
    assert_eq!(next_word(s, 4), 9);
    assert_eq!(next_word(s, 12), 12);
}

#[test]
fn selection_range_orders_its_ends() {
    assert_eq!(selection_range(5, Some(2)), Some((2, 5)));
    assert_eq!(selection_range(2, Some(5)), Some((2, 5)));
    assert_eq!(selection_range(3, Some(3)), None);
    assert_eq!(selection_range(3, None), None);
}

#[test]
fn typing_inserts_at_the_caret() {
    let mut f = field("ac", 1, None);
    assert_eq!(press(&mut f, &typed("b"), None), (true, None));
    assert_eq!(f.text, "abc");
    assert_eq!(f.cursor, 2);
}

#[test]
fn typing_replaces_the_selection() {
    let mut f = field("hello", 4, Some(1));
    assert_eq!(press(&mut f, &typed("é"), None), (true, None));
    assert_eq!(f.text, "héo");
    assert_eq!(f.cursor, 3);
    assert_eq!(f.anchor, None);
}

#[test]
fn backspace_deletes_the_selection() {
    let mut f = field("hello", 4, Some(1));
    assert_eq!(press(&mut f, &key("backspace"), None), (true, None));
    assert_eq!(f.text, "ho");
    assert_eq!(f.cursor, 1);
    assert_eq!(f.anchor, None);
}

#[test]
fn backspace_at_the_start_does_nothing() {
    let mut f = field("x", 0, None);
    assert_eq!(press(&mut f, &key("backspace"), None), (false, None));
    assert_eq!(f.text, "x");
}

#[test]
fn alt_backspace_deletes_a_word() {
    let mut f = field("foo bar", 7, None);
    let ev = KeyStroke { alt: true, ..key("backspace") };
    assert_eq!(press(&mut f, &ev, None), (true, None));
    assert_eq!(f.text, "foo ");
    assert_eq!(f.cursor, 4);
}

#[test]
fn delete_removes_the_next_character() {
    let mut f = field("abc", 1, None);
    assert_eq!(press(&mut f, &key("delete"), None), (true, None));
    assert_eq!(f.text, "ac");
    assert_eq!(f.cursor, 1);
    let mut g = field("abc", 3, None);
    assert_eq!(press(&mut g, &key("delete"), None), (false, None));
}

#[test]
fn copy_hands_out_the_selection() {
    let mut f = field("hello", 3, Some(0));
    let ev = KeyStroke { platform: true, ..key("c") };
    assert_eq!(press(&mut f, &ev, None), (false, Some("hel".to_string())));
    assert_eq!(f.text, "hello");
}

#[test]
fn cut_removes_the_selection() {
    let mut f = field("hello", 3, Some(0));
    let ev = KeyStroke { platform: true, ..key("x") };
    assert_eq!(press(&mut f, &ev, None), (true, Some("hel".to_string())));
    assert_eq!(f.text, "lo");
    assert_eq!(f.cursor, 0);
}

#[test]
fn paste_turns_line_breaks_into_spaces() {
    let mut f = field("xy", 1, None);
    let ev = KeyStroke { platform: true, ..key("v") };
    assert_eq!(press(&mut f, &ev, Some("a\nb")), (true, None));
    assert_eq!(f.text, "xa by");
    assert_eq!(f.cursor, 4);
    let mut g = field("xy", 1, None);
    assert_eq!(press(&mut g, &ev, None), (false, None));
}

#[test]
fn select_all_anchors_at_the_start() {
    let mut f = field("abc", 1, None);
    let ev = KeyStroke { platform: true, ..key("a") };
    assert_eq!(press(&mut f, &ev, None), (true, None));
    assert_eq!(f.anchor, Some(0));
    assert_eq!(f.cursor, 3);
}

#[test]
fn shift_left_extends_and_left_collapses() {
    let mut f = field("abc", 2, None);
    let ev = KeyStroke { shift: true, ..key("left") };
    assert_eq!(press(&mut f, &ev, None), (true, None));
    assert_eq!(f.cursor, 1);
    assert_eq!(f.anchor, Some(2));
    assert_eq!(press(&mut f, &key("left"), None), (true, None));
    assert_eq!(f.cursor, 1);
    assert_eq!(f.anchor, None);
}

#[test]
fn command_right_and_end_go_to_the_end() {
    let mut f = field("héllo", 0, None);
    let ev = KeyStroke { platform: true, ..key("right") };
    assert_eq!(press(&mut f, &ev, None), (true, None));
    assert_eq!(f.cursor, 6);
    let mut g = field("abc", 0, Some(2));
    assert_eq!(press(&mut g, &key("end"), None), (true, None));
    assert_eq!(g.cursor, 3);
    assert_eq!(g.anchor, None);
}

#[test]
fn control_chords_and_control_characters_are_ignored() {
    let mut f = field("ab", 1, None);
    let ev = KeyStroke { control: true, ..typed("a") };
    assert_eq!(press(&mut f, &ev, None), (false, None));
    assert_eq!(press(&mut f, &typed("\u{7}"), None), (false, None));
    assert_eq!(f.text, "ab");
}

#[test]
fn every_key_keeps_the_caret_on_a_character_boundary() {
    let text = "hé 日x";
    let keys = vec![
        key("left"),
        key("right"),
        key("home"),
        key("end"),
        key("backspace"),
        key("delete"),
        KeyStroke { alt: true, ..key("backspace") },
        KeyStroke { alt: true, ..key("left") },
        KeyStroke { shift: true, ..key("right") },
        KeyStroke { platform: true, ..key("a") },
        KeyStroke { platform: true, ..key("x") },
        KeyStroke { platform: true, ..key("v") },
        typed("ü"),
    ];
    let starts: Vec<usize> = (0..=text.len()).filter(|i| text.is_char_boundary(*i)).collect();
    for &c in &starts {
        for ev in &keys {
            let mut f = field(text, c, None);
            press(&mut f, ev, Some("a\nb"));
            assert!(f.cursor <= f.text.len());
            assert!(f.text.is_char_boundary(f.cursor));
            if let Some(a) = f.anchor {
                assert!(a <= f.text.len() && f.text.is_char_boundary(a));
            }
        }
    }
}
