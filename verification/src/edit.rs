//! Single-line text input editing: caret motion by character and by word,
//! selections, deletion, clipboard cut / copy / paste and typing.
//!
//! Positions are byte offsets into the UTF-8 encoding of the text, as in
//! `str` slicing.

use vstd::prelude::*;
use vstd::utf8::{
    decode_utf8, decode_utf8_encode_utf8, encode_utf8, encode_utf8_valid_utf8, is_char_boundary,
    is_char_boundary_iff_not_is_continuation_byte, is_char_boundary_start_end_of_seq,
    is_continuation_byte, valid_utf8, valid_utf8_concat, valid_utf8_split,
};

verus! {

/// The UTF-8 bytes of a text.
pub open spec fn utf8(s: Seq<char>) -> Seq<u8> {
    encode_utf8(s)
}

/// `str::is_char_boundary` on the bytes `b`.
pub open spec fn at_boundary(b: Seq<u8>, i: int) -> bool {
    i == 0 || i == b.len() || (0 < i < b.len() && !is_continuation_byte(b[i]))
}

/// From `i`, step back while on a continuation byte.
pub open spec fn back_to_boundary(b: Seq<u8>, i: int) -> int
    decreases i,
{
    if 0 < i < b.len() && is_continuation_byte(b[i]) {
        back_to_boundary(b, i - 1)
    } else {
        i
    }
}

/// From `i`, step forward while on a continuation byte.
pub open spec fn fwd_to_boundary(b: Seq<u8>, i: int) -> int
    decreases b.len() - i,
{
    if 0 <= i < b.len() && is_continuation_byte(b[i]) {
        fwd_to_boundary(b, i + 1)
    } else {
        i
    }
}

/// Caret position one character left of `idx` (0 when `idx` is 0 or past
/// the end).
pub open spec fn prev_boundary_spec(b: Seq<u8>, idx: int) -> int {
    if idx == 0 || idx > b.len() {
        0
    } else {
        back_to_boundary(b, idx - 1)
    }
}

/// Caret position one character right of `idx` (the end when `idx` is at or
/// past the end).
pub open spec fn next_boundary_spec(b: Seq<u8>, idx: int) -> int {
    if idx >= b.len() {
        b.len() as int
    } else {
        fwd_to_boundary(b, idx + 1)
    }
}

/// `u8::is_ascii_whitespace`: space, tab, line feed, form feed, carriage
/// return.
pub open spec fn ascii_ws(c: u8) -> bool {
    c == 0x20 || c == 0x09 || c == 0x0a || c == 0x0c || c == 0x0d
}

/// From `i`, step back over whitespace bytes.
pub open spec fn skip_ws_back(b: Seq<u8>, i: int) -> int
    decreases i,
{
    if 0 < i <= b.len() && ascii_ws(b[i - 1]) {
        skip_ws_back(b, i - 1)
    } else {
        i
    }
}

/// From `i`, step back over non-whitespace bytes.
pub open spec fn skip_word_back(b: Seq<u8>, i: int) -> int
    decreases i,
{
    if 0 < i <= b.len() && !ascii_ws(b[i - 1]) {
        skip_word_back(b, i - 1)
    } else {
        i
    }
}

/// From `i`, step forward over whitespace bytes.
pub open spec fn skip_ws_fwd(b: Seq<u8>, i: int) -> int
    decreases b.len() - i,
{
    if 0 <= i < b.len() && ascii_ws(b[i]) {
        skip_ws_fwd(b, i + 1)
    } else {
        i
    }
}

/// From `i`, step forward over non-whitespace bytes.
pub open spec fn skip_word_fwd(b: Seq<u8>, i: int) -> int
    decreases b.len() - i,
{
    if 0 <= i < b.len() && !ascii_ws(b[i]) {
        skip_word_fwd(b, i + 1)
    } else {
        i
    }
}

/// Start of the word before `idx`: back over whitespace, then over the word.
pub open spec fn prev_word_spec(b: Seq<u8>, idx: int) -> int {
    if idx == 0 {
        0
    } else {
        skip_word_back(b, skip_ws_back(b, idx))
    }
}

/// Start of the next word after `idx`: over the rest of this word, then
/// over whitespace.
pub open spec fn next_word_spec(b: Seq<u8>, idx: int) -> int {
    skip_ws_fwd(b, skip_word_fwd(b, idx))
}

/// The selected byte range `(lo, hi)`, when the anchor differs from the caret.
pub open spec fn selection_spec(cursor: int, anchor: Option<int>) -> Option<(int, int)> {
    match anchor {
        None => None,
        Some(a) => if a == cursor {
            None
        } else if a < cursor {
            Some((a, cursor))
        } else {
            Some((cursor, a))
        },
    }
}

/// The caret position one character to the left of `idx`.
pub fn prev_boundary(s: &str, idx: usize) -> (r: usize)
    ensures
        r == prev_boundary_spec(utf8(s@), idx as int),
{
    let b = s.as_bytes();
    let n = b.len();
    if idx == 0 || idx > n {
        return 0;
    }
    let mut i = idx - 1;
    while i > 0 && 0x80 <= b[i] && b[i] <= 0xbf
        invariant
            i < n == b@.len(),
            b@ == utf8(s@),
            back_to_boundary(b@, i as int) == back_to_boundary(b@, idx - 1),
        decreases i,
    {
        i -= 1;
    }
    i
}

/// The caret position one character to the right of `idx`.
pub fn next_boundary(s: &str, idx: usize) -> (r: usize)
    ensures
        r == next_boundary_spec(utf8(s@), idx as int),
{
    let b = s.as_bytes();
    let n = b.len();
    if idx >= n {
        return n;
    }
    let mut i = idx + 1;
    while i < n && 0x80 <= b[i] && b[i] <= 0xbf
        invariant
            idx < i <= n == b@.len(),
            b@ == utf8(s@),
            fwd_to_boundary(b@, i as int) == fwd_to_boundary(b@, idx + 1),
        decreases n - i,
    {
        i += 1;
    }
    i
}

/// The start of the word before `idx` (whitespace first, then the word).
pub fn prev_word(s: &str, idx: usize) -> (r: usize)
    requires
        idx <= utf8(s@).len(),
    ensures
        r == prev_word_spec(utf8(s@), idx as int),
{
    if idx == 0 {
        return 0;
    }
    let b = s.as_bytes();
    let mut i = idx;
    while i > 0 && is_ascii_ws_byte(b[i - 1])
        invariant
            i <= idx <= b@.len(),
            b@ == utf8(s@),
            skip_ws_back(b@, i as int) == skip_ws_back(b@, idx as int),
        decreases i,
    {
        i -= 1;
    }
    let ghost m = i;
    while i > 0 && !is_ascii_ws_byte(b[i - 1])
        invariant
            i <= m <= b@.len(),
            b@ == utf8(s@),
            m == skip_ws_back(b@, idx as int),
            skip_word_back(b@, i as int) == skip_word_back(b@, m as int),
        decreases i,
    {
        i -= 1;
    }
    i
}

/// The start of the next word after `idx`.
pub fn next_word(s: &str, idx: usize) -> (r: usize)
    ensures
        r == next_word_spec(utf8(s@), idx as int),
{
    let b = s.as_bytes();
    let n = b.len();
    let mut i = idx;
    while i < n && !is_ascii_ws_byte(b[i])
        invariant
            idx <= i,
            n == b@.len(),
            b@ == utf8(s@),
            i > n ==> i == idx,
            skip_word_fwd(b@, i as int) == skip_word_fwd(b@, idx as int),
        decreases n - i,
    {
        i += 1;
    }
    let ghost m = i;
    while i < n && is_ascii_ws_byte(b[i])
        invariant
            m <= i,
            n == b@.len(),
            b@ == utf8(s@),
            i > n ==> i == m,
            m == skip_word_fwd(b@, idx as int),
            skip_ws_fwd(b@, i as int) == skip_ws_fwd(b@, m as int),
        decreases n - i,
    {
        i += 1;
    }
    i
}

/// `u8::is_ascii_whitespace`.
pub fn is_ascii_ws_byte(c: u8) -> (r: bool)
    ensures
        r == ascii_ws(c),
{
    c == 0x20 || c == 0x09 || c == 0x0a || c == 0x0c || c == 0x0d
}

/// The selected range `(lo, hi)` with `lo < hi`, if the anchor is set and
/// differs from the caret.
pub fn selection_range(cursor: usize, anchor: Option<usize>) -> (r: Option<(usize, usize)>)
    ensures
        match r {
            None => selection_spec(cursor as int, match anchor {
                Some(a) => Some(a as int),
                None => None,
            }) is None,
            Some((lo, hi)) => selection_spec(cursor as int, match anchor {
                Some(a) => Some(a as int),
                None => None,
            }) == Some((lo as int, hi as int)),
        },
{
    let a = match anchor {
        Some(a) => a,
        None => return None,
    };
    if a == cursor {
        return None;
    }
    if a < cursor {
        Some((a, cursor))
    } else {
        Some((cursor, a))
    }
}

/// On valid UTF-8, [`at_boundary`] agrees with the recursive definition of a
/// character boundary.
pub proof fn lemma_at_boundary(b: Seq<u8>, i: int)
    requires
        valid_utf8(b),
        at_boundary(b, i),
    ensures
        is_char_boundary(b, i),
{
    is_char_boundary_start_end_of_seq(b);
    if 0 < i < b.len() {
        is_char_boundary_iff_not_is_continuation_byte(b, i);
    }
}

proof fn lemma_back_to_boundary(b: Seq<u8>, i: int)
    requires
        0 <= i < b.len(),
    ensures
        0 <= back_to_boundary(b, i) <= i,
        at_boundary(b, back_to_boundary(b, i)),
    decreases i,
{
    if 0 < i && is_continuation_byte(b[i]) {
        lemma_back_to_boundary(b, i - 1);
    }
}

proof fn lemma_fwd_to_boundary(b: Seq<u8>, i: int)
    requires
        0 <= i <= b.len(),
    ensures
        i <= fwd_to_boundary(b, i) <= b.len(),
        at_boundary(b, fwd_to_boundary(b, i)),
    decreases b.len() - i,
{
    if i < b.len() && is_continuation_byte(b[i]) {
        lemma_fwd_to_boundary(b, i + 1);
    }
}

/// The position one character left of a position inside the text is a
/// character boundary before it.
pub proof fn lemma_prev_boundary(b: Seq<u8>, idx: int)
    requires
        0 < idx <= b.len(),
    ensures
        0 <= prev_boundary_spec(b, idx) < idx,
        at_boundary(b, prev_boundary_spec(b, idx)),
{
    lemma_back_to_boundary(b, idx - 1);
}

/// The position one character right of a position before the end is a
/// character boundary after it.
pub proof fn lemma_next_boundary(b: Seq<u8>, idx: int)
    requires
        0 <= idx < b.len(),
    ensures
        idx < next_boundary_spec(b, idx) <= b.len(),
        at_boundary(b, next_boundary_spec(b, idx)),
{
    lemma_fwd_to_boundary(b, idx + 1);
}

/// In valid UTF-8 the position right after an ASCII byte is a boundary.
pub proof fn lemma_after_ascii(b: Seq<u8>, r: int)
    requires
        valid_utf8(b),
        0 < r <= b.len(),
        b[r - 1] < 0x80,
    ensures
        at_boundary(b, r),
{
    if r < b.len() {
        let j = r - 1;
        lemma_at_boundary(b, j);
        valid_utf8_split(b, j);
        let t = b.subrange(j, b.len() as int);
        assert(t[0] == b[j]);
        let u = b.subrange(r, b.len() as int);
        assert(vstd::utf8::pop_first_scalar(t) =~= u);
        assert(valid_utf8(u));
        assert(u[0] == b[r]);
    }
}

proof fn lemma_skip_ws_back(b: Seq<u8>, i: int)
    requires
        0 <= i <= b.len(),
    ensures
        0 <= skip_ws_back(b, i) <= i,
        skip_ws_back(b, i) == 0 || !ascii_ws(b[skip_ws_back(b, i) - 1]),
    decreases i,
{
    if 0 < i && ascii_ws(b[i - 1]) {
        lemma_skip_ws_back(b, i - 1);
    }
}

proof fn lemma_skip_word_back(b: Seq<u8>, i: int)
    requires
        0 <= i <= b.len(),
    ensures
        0 <= skip_word_back(b, i) <= i,
        skip_word_back(b, i) == 0 || ascii_ws(b[skip_word_back(b, i) - 1]),
    decreases i,
{
    if 0 < i && !ascii_ws(b[i - 1]) {
        lemma_skip_word_back(b, i - 1);
    }
}

proof fn lemma_skip_word_fwd(b: Seq<u8>, i: int)
    requires
        0 <= i <= b.len(),
    ensures
        i <= skip_word_fwd(b, i) <= b.len(),
        skip_word_fwd(b, i) == b.len() || ascii_ws(b[skip_word_fwd(b, i)]),
    decreases b.len() - i,
{
    if i < b.len() && !ascii_ws(b[i]) {
        lemma_skip_word_fwd(b, i + 1);
    }
}

proof fn lemma_skip_ws_fwd(b: Seq<u8>, i: int)
    requires
        0 <= i <= b.len(),
    ensures
        i <= skip_ws_fwd(b, i) <= b.len(),
        skip_ws_fwd(b, i) == i || ascii_ws(b[skip_ws_fwd(b, i) - 1]),
    decreases b.len() - i,
{
    if i < b.len() && ascii_ws(b[i]) {
        lemma_skip_ws_fwd(b, i + 1);
    }
}

/// The start of the previous word is a character boundary at or before the
/// caret.
pub proof fn lemma_prev_word(b: Seq<u8>, idx: int)
    requires
        valid_utf8(b),
        0 <= idx <= b.len(),
    ensures
        0 <= prev_word_spec(b, idx) <= idx,
        at_boundary(b, prev_word_spec(b, idx)),
{
    if idx > 0 {
        lemma_skip_ws_back(b, idx);
        lemma_skip_word_back(b, skip_ws_back(b, idx));
        let r = prev_word_spec(b, idx);
        if r > 0 {
            lemma_after_ascii(b, r);
        }
    }
}

/// The start of the next word is a character boundary after a caret that
/// is before the end.
pub proof fn lemma_next_word(b: Seq<u8>, idx: int)
    requires
        valid_utf8(b),
        0 <= idx < b.len(),
    ensures
        idx < next_word_spec(b, idx) <= b.len(),
        at_boundary(b, next_word_spec(b, idx)),
{
    lemma_skip_word_fwd(b, idx);
    let m = skip_word_fwd(b, idx);
    lemma_skip_ws_fwd(b, m);
    let r = next_word_spec(b, idx);
    if r < b.len() {
        if r == m {
            assert(ascii_ws(b[m]));
            lemma_skip_ws_fwd(b, m + 1);
            assert(false);
        }
        lemma_after_ascii(b, r);
    }
}

/// Replacing a range between two boundaries of valid UTF-8 by valid UTF-8
/// keeps it valid, and the range itself is valid.
pub proof fn lemma_splice_valid(b: Seq<u8>, lo: int, hi: int, s: Seq<u8>)
    requires
        valid_utf8(b),
        valid_utf8(s),
        0 <= lo <= hi <= b.len(),
        at_boundary(b, lo),
        at_boundary(b, hi),
    ensures
        valid_utf8(b.take(lo) + s + b.skip(hi)),
        valid_utf8(b.subrange(lo, hi)),
{
    lemma_at_boundary(b, lo);
    lemma_at_boundary(b, hi);
    valid_utf8_split(b, lo);
    valid_utf8_split(b, hi);
    assert(b.take(lo) =~= b.subrange(0, lo));
    assert(b.skip(hi) =~= b.subrange(hi, b.len() as int));
    valid_utf8_concat(b.take(lo), s);
    valid_utf8_concat(b.take(lo) + s, b.skip(hi));
    let t = b.subrange(lo, b.len() as int);
    if hi < b.len() {
        assert(t[hi - lo] == b[hi]);
        is_char_boundary_iff_not_is_continuation_byte(t, hi - lo);
    } else {
        is_char_boundary_start_end_of_seq(t);
    }
    valid_utf8_split(t, hi - lo);
    assert(t.subrange(0, hi - lo) =~= b.subrange(lo, hi));
}

/// A key press delivered to a text input.
pub struct KeyStroke {
    /// The key's name (`left`, `backspace`, `v`, ...).
    pub key: String,
    pub shift: bool,
    /// The command key.
    pub platform: bool,
    /// The option key.
    pub alt: bool,
    pub control: bool,
    /// The text the key types, if any.
    pub key_char: Option<String>,
}

/// What a key press did to a text input.
pub struct EditOutcome {
    /// The text, caret or selection changed.
    pub changed: bool,
    /// Text to put on the clipboard (copy and cut).
    pub copied: Option<String>,
}

/// The state of a text input after a key press, in bytes.
pub struct EditSpec {
    pub text: Seq<u8>,
    pub cursor: int,
    pub anchor: Option<int>,
    pub changed: bool,
    pub copied: Option<Seq<u8>>,
}

/// An anchor as an optional integer.
pub open spec fn anchor_of(a: Option<usize>) -> Option<int> {
    match a {
        Some(x) => Some(x as int),
        None => None,
    }
}

/// `char::is_control`: the Unicode `Cc` category.
pub open spec fn is_control(c: char) -> bool {
    c <= '\u{1f}' || ('\u{7f}' <= c && c <= '\u{9f}')
}

/// No character of `s` is a control character.
pub open spec fn no_control(s: Seq<char>) -> bool {
    forall|i: int| 0 <= i < s.len() ==> !is_control(#[trigger] s[i])
}

/// Pasted text: line feeds become spaces.
pub open spec fn paste_text(s: Seq<char>) -> Seq<char> {
    s.map_values(|c: char| if c == '\n' {
        ' '
    } else {
        c
    })
}

/// `b` with `b[lo..hi]` replaced by `s`.
pub open spec fn splice(b: Seq<u8>, lo: int, hi: int, s: Seq<u8>) -> Seq<u8> {
    b.take(lo) + s + b.skip(hi)
}

/// The anchor after a caret motion: kept or set at the caret while shift is
/// held, cleared otherwise.
pub open spec fn motion_anchor(cursor: int, anchor: Option<int>, shift: bool) -> Option<int> {
    if shift {
        if anchor is None {
            Some(cursor)
        } else {
            anchor
        }
    } else {
        None
    }
}

/// The key press types its text: no command, control or option key, and a
/// typed text without control characters.
pub open spec fn types_text(ev: KeyStroke) -> bool {
    &&& !ev.platform
    &&& !ev.control
    &&& !ev.alt
    &&& ev.key_char matches Some(ch) && no_control(ch@)
}

/// Replace the selection, or insert at the caret when nothing is selected.
pub open spec fn insert_spec(b: Seq<u8>, c: int, a: Option<int>, s: Seq<u8>) -> EditSpec {
    match selection_spec(c, a) {
        Some((lo, hi)) => EditSpec {
            text: splice(b, lo, hi, s),
            cursor: lo + s.len(),
            anchor: None,
            changed: true,
            copied: None,
        },
        None => EditSpec {
            text: splice(b, c, c, s),
            cursor: c + s.len(),
            anchor: a,
            changed: true,
            copied: None,
        },
    }
}

/// Nothing happens.
pub open spec fn unchanged(b: Seq<u8>, c: int, a: Option<int>) -> EditSpec {
    EditSpec { text: b, cursor: c, anchor: a, changed: false, copied: None }
}

/// The effect of a key press on a text input with bytes `b`, caret `c` and
/// anchor `a`; `clip` is the clipboard text, if any.
pub open spec fn edit_spec(
    b: Seq<u8>,
    c: int,
    a: Option<int>,
    ev: KeyStroke,
    clip: Option<Seq<char>>,
) -> EditSpec {
    let sel = selection_spec(c, a);
    let key = ev.key@;
    if key == "left"@ {
        if !ev.shift && sel is Some {
            EditSpec {
                text: b,
                cursor: match sel {
                    Some((lo, hi)) => lo,
                    None => c,
                },
                anchor: None,
                changed: true,
                copied: None,
            }
        } else {
            EditSpec {
                text: b,
                cursor: if ev.platform {
                    0
                } else if ev.alt {
                    prev_word_spec(b, c)
                } else {
                    prev_boundary_spec(b, c)
                },
                anchor: motion_anchor(c, a, ev.shift),
                changed: true,
                copied: None,
            }
        }
    } else if key == "right"@ {
        if !ev.shift && sel is Some {
            EditSpec {
                text: b,
                cursor: match sel {
                    Some((lo, hi)) => hi,
                    None => c,
                },
                anchor: None,
                changed: true,
                copied: None,
            }
        } else {
            EditSpec {
                text: b,
                cursor: if ev.platform {
                    b.len() as int
                } else if ev.alt {
                    next_word_spec(b, c)
                } else {
                    next_boundary_spec(b, c)
                },
                anchor: motion_anchor(c, a, ev.shift),
                changed: true,
                copied: None,
            }
        }
    } else if key == "home"@ {
        EditSpec {
            text: b,
            cursor: 0,
            anchor: motion_anchor(c, a, ev.shift),
            changed: true,
            copied: None,
        }
    } else if key == "end"@ {
        EditSpec {
            text: b,
            cursor: b.len() as int,
            anchor: motion_anchor(c, a, ev.shift),
            changed: true,
            copied: None,
        }
    } else if key == "backspace"@ {
        match sel {
            Some((lo, hi)) => EditSpec {
                text: splice(b, lo, hi, seq![]),
                cursor: lo,
                anchor: None,
                changed: true,
                copied: None,
            },
            None => if c == 0 {
                unchanged(b, c, a)
            } else {
                let start = if ev.platform {
                    0
                } else if ev.alt {
                    prev_word_spec(b, c)
                } else {
                    prev_boundary_spec(b, c)
                };
                EditSpec {
                    text: splice(b, start, c, seq![]),
                    cursor: start,
                    anchor: a,
                    changed: true,
                    copied: None,
                }
            },
        }
    } else if key == "delete"@ {
        match sel {
            Some((lo, hi)) => EditSpec {
                text: splice(b, lo, hi, seq![]),
                cursor: lo,
                anchor: None,
                changed: true,
                copied: None,
            },
            None => if c >= b.len() {
                unchanged(b, c, a)
            } else {
                let end = if ev.alt {
                    next_word_spec(b, c)
                } else {
                    next_boundary_spec(b, c)
                };
                EditSpec {
                    text: splice(b, c, end, seq![]),
                    cursor: c,
                    anchor: a,
                    changed: true,
                    copied: None,
                }
            },
        }
    } else if key == "v"@ && ev.platform {
        match clip {
            None => unchanged(b, c, a),
            Some(t) => insert_spec(b, c, a, utf8(paste_text(t))),
        }
    } else if key == "c"@ && ev.platform {
        EditSpec {
            text: b,
            cursor: c,
            anchor: a,
            changed: false,
            copied: match sel {
                Some((lo, hi)) => Some(b.subrange(lo, hi)),
                None => None,
            },
        }
    } else if key == "x"@ && ev.platform {
        match sel {
            Some((lo, hi)) => EditSpec {
                text: splice(b, lo, hi, seq![]),
                cursor: lo,
                anchor: None,
                changed: true,
                copied: Some(b.subrange(lo, hi)),
            },
            None => unchanged(b, c, a),
        }
    } else if key == "a"@ && ev.platform {
        EditSpec { text: b, cursor: b.len() as int, anchor: Some(0), changed: true, copied: None }
    } else if types_text(ev) {
        insert_spec(b, c, a, utf8(ev.key_char->0@))
    } else {
        unchanged(b, c, a)
    }
}

/// The key press touches only valid positions of the text: the selection,
/// or the caret, lies on character boundaries within it wherever the press
/// edits or reads the text there. Elsewhere slicing the text would panic.
pub open spec fn edit_ok(
    b: Seq<u8>,
    c: int,
    a: Option<int>,
    ev: KeyStroke,
    clip: Option<Seq<char>>,
) -> bool {
    let sel = selection_spec(c, a);
    let key = ev.key@;
    let range_ok = match sel {
        Some((lo, hi)) => hi <= b.len() && at_boundary(b, lo) && at_boundary(b, hi),
        None => true,
    };
    let cursor_ok = c <= b.len() && at_boundary(b, c);
    if key == "left"@ {
        (ev.shift || sel is None) && !ev.platform && ev.alt ==> c <= b.len()
    } else if key == "right"@ || key == "home"@ || key == "end"@ {
        true
    } else if key == "backspace"@ {
        if sel is Some {
            range_ok
        } else {
            c == 0 || cursor_ok
        }
    } else if key == "delete"@ {
        if sel is Some {
            range_ok
        } else {
            c >= b.len() || cursor_ok
        }
    } else if key == "v"@ && ev.platform {
        clip is Some ==> if sel is Some {
            range_ok
        } else {
            cursor_ok
        }
    } else if (key == "c"@ || key == "x"@) && ev.platform {
        range_ok
    } else if key == "a"@ && ev.platform {
        true
    } else if types_text(ev) {
        if sel is Some {
            range_ok
        } else {
            cursor_ok
        }
    } else {
        true
    }
}

/// A string from valid UTF-8 bytes (`String::from_utf8`, which succeeds on
/// them).
#[verifier::external_body]
fn string_from_utf8(v: Vec<u8>) -> (r: String)
    requires
        valid_utf8(v@),
    ensures
        r@ == decode_utf8(v@),
{
    String::from_utf8(v).unwrap()
}

/// `text` with the bytes `lo..hi` replaced by `ins` (`String::replace_range`).
fn replace_range(text: &String, lo: usize, hi: usize, ins: &str) -> (r: String)
    requires
        lo <= hi <= utf8(text@).len(),
        at_boundary(utf8(text@), lo as int),
        at_boundary(utf8(text@), hi as int),
        utf8(text@).len() + utf8(ins@).len() <= usize::MAX,
    ensures
        utf8(r@) == splice(utf8(text@), lo as int, hi as int, utf8(ins@)),
{
    let b = text.as_str().as_bytes();
    let s = ins.as_bytes();
    let mut v: Vec<u8> = Vec::new();
    let mut i: usize = 0;
    while i < lo
        invariant
            i <= lo <= b@.len(),
            v@ == b@.take(i as int),
        decreases lo - i,
    {
        v.push(b[i]);
        assert(b@.take(i as int).push(b@[i as int]) =~= b@.take(i + 1));
        i += 1;
    }
    let mut j: usize = 0;
    while j < s.len()
        invariant
            j <= s@.len(),
            v@ == b@.take(lo as int) + s@.take(j as int),
        decreases s@.len() - j,
    {
        v.push(s[j]);
        assert(b@.take(lo as int) + s@.take(j as int) + seq![s@[j as int]] =~= b@.take(lo as int)
            + s@.take(j + 1));
        j += 1;
    }
    assert(s@.take(s@.len() as int) =~= s@);
    let mut k: usize = hi;
    while k < b.len()
        invariant
            hi <= k <= b@.len(),
            v@ == b@.take(lo as int) + s@ + b@.subrange(hi as int, k as int),
        decreases b@.len() - k,
    {
        v.push(b[k]);
        assert(b@.take(lo as int) + s@ + b@.subrange(hi as int, k as int) + seq![b@[k as int]]
            =~= b@.take(lo as int) + s@ + b@.subrange(hi as int, k + 1));
        k += 1;
    }
    assert(b@.subrange(hi as int, b@.len() as int) =~= b@.skip(hi as int));
    proof {
        encode_utf8_valid_utf8(text@);
        encode_utf8_valid_utf8(ins@);
        lemma_splice_valid(b@, lo as int, hi as int, s@);
    }
    let ghost w = v@;
    let r = string_from_utf8(v);
    proof {
        decode_utf8_encode_utf8(w);
    }
    r
}

/// The bytes `lo..hi` of `text` as a string.
pub(crate) fn substring(text: &String, lo: usize, hi: usize) -> (r: String)
    requires
        lo <= hi <= utf8(text@).len(),
        at_boundary(utf8(text@), lo as int),
        at_boundary(utf8(text@), hi as int),
    ensures
        utf8(r@) == utf8(text@).subrange(lo as int, hi as int),
{
    let b = text.as_str().as_bytes();
    let mut v: Vec<u8> = Vec::new();
    let mut i: usize = lo;
    while i < hi
        invariant
            lo <= i <= hi <= b@.len(),
            v@ == b@.subrange(lo as int, i as int),
        decreases hi - i,
    {
        v.push(b[i]);
        assert(b@.subrange(lo as int, i as int).push(b@[i as int]) =~= b@.subrange(
            lo as int,
            i + 1,
        ));
        i += 1;
    }
    proof {
        encode_utf8_valid_utf8(text@);
        encode_utf8_valid_utf8(Seq::<char>::empty());
        lemma_splice_valid(b@, lo as int, hi as int, utf8(Seq::<char>::empty()));
    }
    let ghost w = v@;
    let r = string_from_utf8(v);
    proof {
        decode_utf8_encode_utf8(w);
    }
    r
}

/// Line feeds of `s` replaced by spaces.
fn paste_string(s: &String) -> (r: String)
    ensures
        r@ == paste_text(s@),
{
    let v = crate::text::chars_of(s.as_str());
    let mut r = String::new();
    let mut i: usize = 0;
    while i < v.len()
        invariant
            i <= v@.len(),
            v@ == s@,
            r@ == paste_text(s@).take(i as int),
        decreases v@.len() - i,
    {
        let c = if v[i] == '\n' {
            ' '
        } else {
            v[i]
        };
        crate::text::push_char(&mut r, c);
        assert(paste_text(s@).take(i as int).push(c) =~= paste_text(s@).take(i + 1));
        i += 1;
    }
    assert(paste_text(s@).take(v@.len() as int) =~= paste_text(s@));
    r
}

/// No character of `s` is a control character.
pub(crate) fn has_no_control(s: &String) -> (r: bool)
    ensures
        r == no_control(s@),
{
    let v = crate::text::chars_of(s.as_str());
    let mut i: usize = 0;
    while i < v.len()
        invariant
            i <= v@.len(),
            v@ == s@,
            forall|j: int| 0 <= j < i ==> !is_control(#[trigger] v@[j]),
        decreases v@.len() - i,
    {
        let c = v[i];
        if c <= '\u{1f}' || ('\u{7f}' <= c && c <= '\u{9f}') {
            return false;
        }
        i += 1;
    }
    true
}

/// The clipboard text as a character sequence.
pub open spec fn clip_of(c: Option<String>) -> Option<Seq<char>> {
    match c {
        Some(t) => Some(t@),
        None => None,
    }
}

/// Byte length of an optional text (0 when absent).
pub open spec fn opt_len(c: Option<String>) -> nat {
    match c {
        Some(t) => utf8(t@).len(),
        None => 0,
    }
}

proof fn lemma_paste_len(t: Seq<char>)
    ensures
        utf8(paste_text(t)).len() == utf8(t).len(),
    decreases t.len(),
{
    if t.len() > 0 {
        lemma_paste_len(t.drop_first());
        assert(paste_text(t).drop_first() =~= paste_text(t.drop_first()));
        assert(paste_text(t)[0] == if t[0] == '\n' {
            ' '
        } else {
            t[0]
        });
    }
}

fn begin_motion(cursor: usize, anchor: &mut Option<usize>, shift: bool)
    ensures
        anchor_of(*final(anchor)) == motion_anchor(cursor as int, anchor_of(*old(anchor)), shift),
{
    if shift {
        if anchor.is_none() {
            *anchor = Some(cursor);
        }
    } else {
        *anchor = None;
    }
}

/// Key handler for a single-line text input with a selection: caret motion
/// by character, word or line (with shift extending the selection),
/// backspace / delete by character, word or line, cut / copy / paste,
/// select all and typing. The clipboard text is `clipboard`; what is to be
/// copied to the clipboard comes back in the outcome.
pub fn handle_text_edit(
    text: &mut String,
    cursor: &mut usize,
    anchor: &mut Option<usize>,
    ev: &KeyStroke,
    clipboard: Option<String>,
) -> (r: EditOutcome)
    requires
        edit_ok(
            utf8(old(text)@),
            *old(cursor) as int,
            anchor_of(*old(anchor)),
            *ev,
            clip_of(clipboard),
        ),
        utf8(old(text)@).len() + opt_len(clipboard) <= usize::MAX,
        utf8(old(text)@).len() + opt_len(ev.key_char) <= usize::MAX,
    ensures
        ({
            let e = edit_spec(
                utf8(old(text)@),
                *old(cursor) as int,
                anchor_of(*old(anchor)),
                *ev,
                clip_of(clipboard),
            );
            &&& utf8(final(text)@) == e.text
            &&& *final(cursor) as int == e.cursor
            &&& anchor_of(*final(anchor)) == e.anchor
            &&& r.changed == e.changed
            &&& match r.copied {
                Some(t) => e.copied == Some(utf8(t@)),
                None => e.copied is None,
            }
        }),
{
    let ghost b = utf8(text@);
    let n = text.as_str().len();
    proof {
        encode_utf8_valid_utf8(text@);
        reveal_strlit("");
        assert(utf8(""@) =~= Seq::<u8>::empty());
    }
    assert(n == b.len());
    let sel = selection_range(*cursor, *anchor);
    let key = ev.key.as_str();
    if crate::text::str_is(key, "left") {
        if !ev.shift {
            if let Some((lo, _)) = sel {
                *cursor = lo;
                *anchor = None;
                return EditOutcome { changed: true, copied: None };
            }
        }
        begin_motion(*cursor, anchor, ev.shift);
        *cursor = if ev.platform {
            0
        } else if ev.alt {
            prev_word(text.as_str(), *cursor)
        } else {
            prev_boundary(text.as_str(), *cursor)
        };
        return EditOutcome { changed: true, copied: None };
    }
    if crate::text::str_is(key, "right") {
        if !ev.shift {
            if let Some((_, hi)) = sel {
                *cursor = hi;
                *anchor = None;
                return EditOutcome { changed: true, copied: None };
            }
        }
        begin_motion(*cursor, anchor, ev.shift);
        *cursor = if ev.platform {
            n
        } else if ev.alt {
            next_word(text.as_str(), *cursor)
        } else {
            next_boundary(text.as_str(), *cursor)
        };
        return EditOutcome { changed: true, copied: None };
    }
    if crate::text::str_is(key, "home") {
        begin_motion(*cursor, anchor, ev.shift);
        *cursor = 0;
        if !ev.shift {
            *anchor = None;
        }
        return EditOutcome { changed: true, copied: None };
    }
    if crate::text::str_is(key, "end") {
        begin_motion(*cursor, anchor, ev.shift);
        *cursor = n;
        if !ev.shift {
            *anchor = None;
        }
        return EditOutcome { changed: true, copied: None };
    }
    if crate::text::str_is(key, "backspace") {
        if let Some((lo, hi)) = sel {
            *text = replace_range(text, lo, hi, "");
            *cursor = lo;
            *anchor = None;
            return EditOutcome { changed: true, copied: None };
        }
        if *cursor == 0 {
            return EditOutcome { changed: false, copied: None };
        }
        let start = if ev.platform {
            0
        } else if ev.alt {
            prev_word(text.as_str(), *cursor)
        } else {
            prev_boundary(text.as_str(), *cursor)
        };
        proof {
            if !ev.platform {
                if ev.alt {
                    lemma_prev_word(b, *cursor as int);
                } else {
                    lemma_prev_boundary(b, *cursor as int);
                }
            }
        }
        *text = replace_range(text, start, *cursor, "");
        *cursor = start;
        return EditOutcome { changed: true, copied: None };
    }
    if crate::text::str_is(key, "delete") {
        if let Some((lo, hi)) = sel {
            *text = replace_range(text, lo, hi, "");
            *cursor = lo;
            *anchor = None;
            return EditOutcome { changed: true, copied: None };
        }
        if *cursor >= n {
            return EditOutcome { changed: false, copied: None };
        }
        let end = if ev.alt {
            next_word(text.as_str(), *cursor)
        } else {
            next_boundary(text.as_str(), *cursor)
        };
        proof {
            if ev.alt {
                lemma_next_word(b, *cursor as int);
            } else {
                lemma_next_boundary(b, *cursor as int);
            }
        }
        *text = replace_range(text, *cursor, end, "");
        return EditOutcome { changed: true, copied: None };
    }
    if crate::text::str_is(key, "v") && ev.platform {
        return match clipboard {
            Some(t) => {
                let p = paste_string(&t);
                proof {
                    lemma_paste_len(t@);
                }
                insert_text(text, cursor, anchor, p.as_str());
                EditOutcome { changed: true, copied: None }
            },
            None => EditOutcome { changed: false, copied: None },
        };
    }
    if crate::text::str_is(key, "c") && ev.platform {
        if let Some((lo, hi)) = sel {
            let t = substring(text, lo, hi);
            return EditOutcome { changed: false, copied: Some(t) };
        }
        return EditOutcome { changed: false, copied: None };
    }
    if crate::text::str_is(key, "x") && ev.platform {
        if let Some((lo, hi)) = sel {
            let t = substring(text, lo, hi);
            *text = replace_range(text, lo, hi, "");
            *cursor = lo;
            *anchor = None;
            return EditOutcome { changed: true, copied: Some(t) };
        }
        return EditOutcome { changed: false, copied: None };
    }
    if crate::text::str_is(key, "a") && ev.platform {
        *anchor = Some(0);
        *cursor = n;
        return EditOutcome { changed: true, copied: None };
    }
    if !ev.platform && !ev.control && !ev.alt {
        if let Some(ch) = &ev.key_char {
            if has_no_control(ch) {
                insert_text(text, cursor, anchor, ch.as_str());
                return EditOutcome { changed: true, copied: None };
            }
        }
    }
    EditOutcome { changed: false, copied: None }
}

/// Replace the selection by `s`, or insert `s` at the caret.
fn insert_text(text: &mut String, cursor: &mut usize, anchor: &mut Option<usize>, s: &str)
    requires
        match selection_spec(*old(cursor) as int, anchor_of(*old(anchor))) {
            Some((lo, hi)) => hi <= utf8(old(text)@).len() && at_boundary(utf8(old(text)@), lo)
                && at_boundary(utf8(old(text)@), hi),
            None => *old(cursor) <= utf8(old(text)@).len() && at_boundary(
                utf8(old(text)@),
                *old(cursor) as int,
            ),
        },
        utf8(old(text)@).len() + utf8(s@).len() <= usize::MAX,
    ensures
        ({
            let e = insert_spec(
                utf8(old(text)@),
                *old(cursor) as int,
                anchor_of(*old(anchor)),
                utf8(s@),
            );
            &&& utf8(final(text)@) == e.text
            &&& *final(cursor) as int == e.cursor
            &&& anchor_of(*final(anchor)) == e.anchor
        }),
{
    let m = s.len();
    if let Some((lo, hi)) = selection_range(*cursor, *anchor) {
        *text = replace_range(text, lo, hi, s);
        *cursor = lo + m;
        *anchor = None;
    } else {
        let c = *cursor;
        *text = replace_range(text, c, c, s);
        *cursor = c + m;
    }
}

/// How a text field is drawn around its caret: the text before the
/// selection, the selected text, the text after it, and whether the caret
/// stands at the selection's start. Without a selection the caret stands
/// between `before` and `after`, and `selected` is empty.
pub struct CaretLayout {
    pub before: String,
    pub selected: String,
    pub after: String,
    pub caret_at_start: bool,
}

/// An optional byte offset as an integer.
pub open spec fn opt_int(a: Option<usize>) -> Option<int> {
    match a {
        Some(x) => Some(x as int),
        None => None,
    }
}

/// The caret clamped to the text.
pub open spec fn clamped(b: Seq<u8>, cursor: int) -> int {
    if cursor <= b.len() {
        cursor
    } else {
        b.len() as int
    }
}

/// The caret and the selection's other end fall on character boundaries
/// of the text, once the caret is clamped to it.
pub open spec fn caret_ok(b: Seq<u8>, cursor: int, anchor: Option<int>) -> bool {
    let c = clamped(b, cursor);
    &&& at_boundary(b, c)
    &&& match anchor {
        Some(a) => a != c ==> 0 <= a <= b.len() && at_boundary(b, a),
        None => true,
    }
}

/// The start of the run of non-whitespace bytes that ends at `i`.
pub open spec fn word_start(b: Seq<u8>, i: int) -> int
    decreases i,
{
    if 0 < i <= b.len() && !ascii_ws(b[i - 1]) {
        word_start(b, i - 1)
    } else {
        i
    }
}

/// The end of the run of non-whitespace bytes that starts at `i`.
pub open spec fn word_end(b: Seq<u8>, i: int) -> int
    decreases b.len() - i,
{
    if 0 <= i < b.len() && !ascii_ws(b[i]) {
        word_end(b, i + 1)
    } else {
        i
    }
}

/// A double click in a text field selects the word at the caret: the run
/// of non-whitespace characters around the (clamped) caret, with the caret
/// at its end and the selection's other end at its start. Where the caret
/// touches no word nothing changes. A selected word's ends fall on
/// character boundaries.
pub fn select_word(text: &String, cursor: &mut usize, anchor: &mut Option<usize>)
    ensures
        ({
            let b = utf8(text@);
            let c = clamped(b, *old(cursor) as int);
            let lo = word_start(b, c);
            let hi = word_end(b, c);
            if lo < hi {
                &&& *final(cursor) == hi
                &&& *final(anchor) == Some(lo as usize)
                &&& at_boundary(b, lo) && at_boundary(b, hi)
            } else {
                *final(cursor) == *old(cursor) && *final(anchor) == *old(anchor)
            }
        }),
{
    let b = text.as_str().as_bytes();
    let n = b.len();
    let c = if *cursor <= n {
        *cursor
    } else {
        n
    };
    let mut lo = c;
    while lo > 0 && !is_ascii_ws_byte(b[lo - 1])
        invariant
            0 <= lo <= c <= n == b@.len(),
            word_start(b@, lo as int) == word_start(b@, c as int),
        decreases lo,
    {
        lo -= 1;
    }
    let mut hi = c;
    while hi < n && !is_ascii_ws_byte(b[hi])
        invariant
            c <= hi <= n == b@.len(),
            word_end(b@, hi as int) == word_end(b@, c as int),
        decreases n - hi,
    {
        hi += 1;
    }
    if lo < hi {
        proof {
            encode_utf8_valid_utf8(text@);
            if lo > 0 {
                lemma_after_ascii(b@, lo as int);
            }
        }
        *cursor = hi;
        *anchor = Some(lo);
    }
}

/// A field whose caret and selection end fall on character boundaries can
/// be drawn.
pub proof fn lemma_field_drawable(b: Seq<u8>, c: int, a: Option<int>)
    requires
        field_ok(b, c, a),
    ensures
        caret_ok(b, c, a),
{
}

/// Splits `text` for drawing with its caret and selection (see
/// [`CaretLayout`]); the caret is first clamped to the text.
pub fn caret_layout(text: &String, cursor: usize, anchor: Option<usize>) -> (r: CaretLayout)
    requires
        caret_ok(utf8(text@), cursor as int, opt_int(anchor)),
    ensures
        ({
            let b = utf8(text@);
            let c = clamped(b, cursor as int);
            match selection_spec(c, opt_int(anchor)) {
                Some((lo, hi)) => {
                    &&& utf8(r.before@) == b.subrange(0, lo)
                    &&& utf8(r.selected@) == b.subrange(lo, hi)
                    &&& utf8(r.after@) == b.subrange(hi, b.len() as int)
                    &&& r.caret_at_start == (c == lo)
                },
                None => {
                    &&& utf8(r.before@) == b.subrange(0, c)
                    &&& r.selected@ == Seq::<char>::empty()
                    &&& utf8(r.after@) == b.subrange(c, b.len() as int)
                    &&& r.caret_at_start
                },
            }
        }),
{
    let n = text.as_str().as_bytes().len();
    let c = if cursor <= n {
        cursor
    } else {
        n
    };
    match selection_range(c, anchor) {
        Some((lo, hi)) => CaretLayout {
            before: substring(text, 0, lo),
            selected: substring(text, lo, hi),
            after: substring(text, hi, n),
            caret_at_start: c == lo,
        },
        None => CaretLayout {
            before: substring(text, 0, c),
            selected: String::new(),
            after: substring(text, c, n),
            caret_at_start: true,
        },
    }
}

/// The caret and the anchor stand on character boundaries within the text.
pub open spec fn field_ok(b: Seq<u8>, c: int, a: Option<int>) -> bool {
    &&& 0 <= c <= b.len()
    &&& at_boundary(b, c)
    &&& (a matches Some(x) ==> 0 <= x <= b.len() && at_boundary(b, x))
}

proof fn lemma_first_byte(s: Seq<u8>)
    requires
        valid_utf8(s),
        s.len() > 0,
    ensures
        !is_continuation_byte(s[0]),
{
    is_char_boundary_iff_not_is_continuation_byte(s, 0);
}

/// Splicing valid text between two boundaries keeps the boundaries before
/// the splice and makes its end one.
proof fn lemma_splice_boundaries(b: Seq<u8>, lo: int, hi: int, s: Seq<u8>)
    requires
        valid_utf8(b),
        valid_utf8(s),
        0 <= lo <= hi <= b.len(),
        at_boundary(b, lo),
        at_boundary(b, hi),
    ensures
        valid_utf8(splice(b, lo, hi, s)),
        splice(b, lo, hi, s).len() == b.len() - (hi - lo) + s.len(),
        at_boundary(splice(b, lo, hi, s), lo + s.len()),
        forall|j: int|
            0 <= j <= lo && at_boundary(b, j) ==> #[trigger] at_boundary(splice(b, lo, hi, s), j),
{
    lemma_splice_valid(b, lo, hi, s);
    let t = splice(b, lo, hi, s);
    assert(t.len() == b.len() - (hi - lo) + s.len());
    if lo + s.len() < t.len() {
        assert(t[lo + s.len()] == b[hi]);
    }
    assert forall|j: int| 0 <= j <= lo && at_boundary(b, j) implies #[trigger] at_boundary(t, j) by {
        if 0 < j < t.len() {
            if j < lo {
                assert(t[j] == b[j]);
            } else if s.len() > 0 {
                assert(t[j] == s[0]);
                lemma_first_byte(s);
            } else {
                assert(t[j] == b[hi]);
            }
        }
    }
}

/// A key press on a field whose caret and anchor stand on character
/// boundaries of valid UTF-8 is always accepted, keeps the text valid and
/// leaves the caret on a boundary; the anchor stays on one too, except after
/// a backspace while the anchor sits at the caret, which leaves the anchor
/// where the deleted text was.
pub proof fn lemma_edit_keeps_field(
    b: Seq<u8>,
    c: int,
    a: Option<int>,
    ev: KeyStroke,
    clip: Option<Seq<char>>,
)
    requires
        valid_utf8(b),
        field_ok(b, c, a),
    ensures
        edit_ok(b, c, a, ev, clip),
        valid_utf8(edit_spec(b, c, a, ev, clip).text),
        field_ok(
            edit_spec(b, c, a, ev, clip).text,
            edit_spec(b, c, a, ev, clip).cursor,
            None,
        ),
        !(ev.key@ == "backspace"@ && a == Some(c) && c > 0) ==> field_ok(
            edit_spec(b, c, a, ev, clip).text,
            edit_spec(b, c, a, ev, clip).cursor,
            edit_spec(b, c, a, ev, clip).anchor,
        ),
{
    let sel = selection_spec(c, a);
    let key = ev.key@;
    if c > 0 {
        lemma_prev_boundary(b, c);
    }
    if c < b.len() {
        lemma_next_boundary(b, c);
        lemma_next_word(b, c);
    }
    lemma_prev_word(b, c);
    if key == "left"@ || key == "right"@ || key == "home"@ || key == "end"@ {
    } else if key == "backspace"@ || key == "delete"@ {
        match sel {
            Some((lo, hi)) => {
                lemma_splice_boundaries(b, lo, hi, seq![]);
            },
            None => {
                if key == "backspace"@ {
                    if c > 0 {
                        let start = if ev.platform {
                            0
                        } else if ev.alt {
                            prev_word_spec(b, c)
                        } else {
                            prev_boundary_spec(b, c)
                        };
                        lemma_splice_boundaries(b, start, c, seq![]);
                    }
                } else if c < b.len() {
                    let end = if ev.alt {
                        next_word_spec(b, c)
                    } else {
                        next_boundary_spec(b, c)
                    };
                    lemma_splice_boundaries(b, c, end, seq![]);
                }
            },
        }
    } else if key == "v"@ && ev.platform {
        match clip {
            Some(t) => {
                let s = utf8(paste_text(t));
                encode_utf8_valid_utf8(paste_text(t));
                match sel {
                    Some((lo, hi)) => {
                        lemma_splice_boundaries(b, lo, hi, s);
                    },
                    None => {
                        lemma_splice_boundaries(b, c, c, s);
                    },
                }
            },
            None => {},
        }
    } else if key == "c"@ && ev.platform {
    } else if key == "x"@ && ev.platform {
        match sel {
            Some((lo, hi)) => {
                lemma_splice_boundaries(b, lo, hi, seq![]);
            },
            None => {},
        }
    } else if key == "a"@ && ev.platform {
    } else if types_text(ev) {
        let s = utf8(ev.key_char->0@);
        encode_utf8_valid_utf8(ev.key_char->0@);
        match sel {
            Some((lo, hi)) => {
                lemma_splice_boundaries(b, lo, hi, s);
            },
            None => {
                lemma_splice_boundaries(b, c, c, s);
            },
        }
    }
}
proof fn lemma_word_run(b: Seq<u8>, i: int)
    requires
        0 <= i <= b.len(),
    ensures
        i <= skip_word_fwd(b, i) <= b.len(),
        forall|j: int| i <= j < skip_word_fwd(b, i) ==> !ascii_ws(#[trigger] b[j]),
        skip_word_fwd(b, i) == b.len() || ascii_ws(b[skip_word_fwd(b, i)]),
    decreases b.len() - i,
{
    if i < b.len() && !ascii_ws(b[i]) {
        lemma_word_run(b, i + 1);
    }
}

proof fn lemma_space_run(b: Seq<u8>, i: int)
    requires
        0 <= i <= b.len(),
    ensures
        i <= skip_ws_fwd(b, i) <= b.len(),
        forall|j: int| i <= j < skip_ws_fwd(b, i) ==> ascii_ws(#[trigger] b[j]),
        skip_ws_fwd(b, i) == b.len() || !ascii_ws(b[skip_ws_fwd(b, i)]),
    decreases b.len() - i,
{
    if i < b.len() && ascii_ws(b[i]) {
        lemma_space_run(b, i + 1);
    }
}

/// Right without shift while a selection is active collapses it to its
/// right end: the caret lands on the larger of the caret and the anchor,
/// never left of either, the selection is gone and the text stays.
pub proof fn lemma_right_collapses_to_right_end(
    b: Seq<u8>,
    c: int,
    x: int,
    ev: KeyStroke,
    clip: Option<Seq<char>>,
)
    requires
        ev.key@ == "right"@,
        !ev.shift,
        x != c,
    ensures
        ({
            let e = edit_spec(b, c, Some(x), ev, clip);
            &&& e.cursor >= c
            &&& e.cursor >= x
            &&& (e.cursor == c || e.cursor == x)
            &&& e.anchor is None
            &&& e.text == b
        }),
{
    reveal_strlit("left");
    reveal_strlit("right");
    assert("right"@[0] != "left"@[0]);
    assert(ev.key@ != "left"@);
}

/// Right never moves the caret left, whatever the modifiers and the
/// selection, for a caret within the text.
pub proof fn lemma_right_never_moves_left(
    b: Seq<u8>,
    c: int,
    a: Option<int>,
    ev: KeyStroke,
    clip: Option<Seq<char>>,
)
    requires
        ev.key@ == "right"@,
        0 <= c <= b.len(),
    ensures
        edit_spec(b, c, a, ev, clip).cursor >= c,
        edit_spec(b, c, a, ev, clip).text == b,
{
    reveal_strlit("left");
    reveal_strlit("right");
    assert("right"@[0] != "left"@[0]);
    assert(ev.key@ != "left"@);
    if c < b.len() {
        lemma_word_run(b, c);
        lemma_space_run(b, skip_word_fwd(b, c));
        lemma_fwd_to_boundary(b, c + 1);
    } else {
        lemma_word_run(b, c);
        lemma_space_run(b, skip_word_fwd(b, c));
    }
}

/// Option+Delete with nothing selected deletes from the caret to the start
/// of the next word: the rest of the word the caret is in (bytes that are
/// not whitespace), then the whitespace after it, stopping at the next
/// word or the end. At least one byte goes; the caret and anchor stay.
/// The result gives where the word ends and where the deletion ends; these
/// conditions fix both.
pub proof fn lemma_option_delete_removes_to_next_word(
    b: Seq<u8>,
    c: int,
    a: Option<int>,
    ev: KeyStroke,
    clip: Option<Seq<char>>,
) -> (r: (int, int))
    requires
        ev.key@ == "delete"@,
        ev.alt,
        selection_spec(c, a) is None,
        0 <= c < b.len(),
    ensures
        ({
            let e = edit_spec(b, c, a, ev, clip);
            let (m, end) = r;
            &&& e.cursor == c
            &&& e.anchor == a
            &&& e.changed
            &&& c <= m <= end <= b.len()
            &&& c < end
            &&& e.text == b.take(c) + b.skip(end)
            &&& forall|j: int| c <= j < m ==> !ascii_ws(#[trigger] b[j])
            &&& forall|j: int| m <= j < end ==> ascii_ws(#[trigger] b[j])
            &&& m == b.len() || ascii_ws(b[m])
            &&& end == b.len() || !ascii_ws(b[end])
        }),
{
    reveal_strlit("left");
    reveal_strlit("right");
    reveal_strlit("home");
    reveal_strlit("end");
    reveal_strlit("backspace");
    reveal_strlit("delete");
    assert("delete"@[0] != "left"@[0]);
    assert("delete"@[0] != "right"@[0]);
    assert("delete"@[0] != "home"@[0]);
    assert("delete"@[0] != "end"@[0]);
    assert("delete"@[0] != "backspace"@[0]);
    assert(ev.key@ != "left"@ && ev.key@ != "right"@ && ev.key@ != "home"@ && ev.key@ != "end"@);
    assert(ev.key@ != "backspace"@);
    let m = skip_word_fwd(b, c);
    lemma_word_run(b, c);
    lemma_space_run(b, m);
    let end = skip_ws_fwd(b, m);
    assert(end == next_word_spec(b, c));
    if m == c {
        assert(ascii_ws(b[c]));
        assert(end > c);
    }
    let e = edit_spec(b, c, a, ev, clip);
    assert(e.text =~= b.take(c) + b.skip(end));
    assert(e.cursor == c && e.anchor == a && e.changed);
    (m, end)
}

proof fn lemma_fwd_run(b: Seq<u8>, i: int)
    requires
        0 <= i <= b.len(),
    ensures
        i <= fwd_to_boundary(b, i) <= b.len(),
        forall|j: int| i <= j < fwd_to_boundary(b, i) ==> is_continuation_byte(#[trigger] b[j]),
        fwd_to_boundary(b, i) == b.len() || !is_continuation_byte(b[fwd_to_boundary(b, i)]),
    decreases b.len() - i,
{
    if i < b.len() && is_continuation_byte(b[i]) {
        lemma_fwd_run(b, i + 1);
    }
}

proof fn lemma_back_run(b: Seq<u8>, i: int)
    requires
        0 <= i < b.len(),
    ensures
        0 <= back_to_boundary(b, i) <= i,
        forall|j: int| back_to_boundary(b, i) < j <= i ==> is_continuation_byte(#[trigger] b[j]),
        back_to_boundary(b, i) == 0 || !is_continuation_byte(b[back_to_boundary(b, i)]),
    decreases i,
{
    if 0 < i && is_continuation_byte(b[i]) {
        lemma_back_run(b, i - 1);
    }
}

/// Left without shift while a selection is active collapses it to its left
/// end: the caret lands on the smaller of the caret and the anchor, the
/// selection is gone and the text stays.
pub proof fn lemma_left_collapses_to_left_end(
    b: Seq<u8>,
    c: int,
    x: int,
    ev: KeyStroke,
    clip: Option<Seq<char>>,
)
    requires
        ev.key@ == "left"@,
        !ev.shift,
        x != c,
    ensures
        ({
            let e = edit_spec(b, c, Some(x), ev, clip);
            &&& e.cursor <= c
            &&& e.cursor <= x
            &&& (e.cursor == c || e.cursor == x)
            &&& e.anchor is None
            &&& e.text == b
        }),
{
}

/// Left never moves the caret right, whatever the modifiers and the
/// selection, for a caret within the text.
pub proof fn lemma_left_never_moves_right(
    b: Seq<u8>,
    c: int,
    a: Option<int>,
    ev: KeyStroke,
    clip: Option<Seq<char>>,
)
    requires
        ev.key@ == "left"@,
        0 <= c <= b.len(),
        a matches Some(x) ==> 0 <= x,
    ensures
        0 <= edit_spec(b, c, a, ev, clip).cursor <= c,
        edit_spec(b, c, a, ev, clip).text == b,
{
    if c > 0 {
        lemma_skip_ws_back(b, c);
        lemma_skip_word_back(b, skip_ws_back(b, c));
        lemma_back_run(b, c - 1);
    }
}

/// Plain Right with nothing selected moves the caret over exactly one
/// character: to the next character boundary after it, skipping no
/// boundary; at the end it stays.
pub proof fn lemma_right_steps_one_character(
    b: Seq<u8>,
    c: int,
    a: Option<int>,
    ev: KeyStroke,
    clip: Option<Seq<char>>,
)
    requires
        ev.key@ == "right"@,
        !ev.platform,
        !ev.alt,
        selection_spec(c, a) is None,
        0 <= c <= b.len(),
    ensures
        ({
            let n = edit_spec(b, c, a, ev, clip).cursor;
            &&& c < b.len() ==> c < n <= b.len() && at_boundary(b, n) && forall|j: int|
                c < j < n ==> !at_boundary(b, j)
            &&& c == b.len() ==> n == c
        }),
{
    reveal_strlit("left");
    reveal_strlit("right");
    assert("right"@[0] != "left"@[0]);
    if c < b.len() {
        lemma_fwd_run(b, c + 1);
    }
}

/// Plain Backspace with nothing selected removes exactly the character
/// before the caret: the bytes from the previous character boundary, with
/// no boundary between, and the caret moves there.
pub proof fn lemma_backspace_removes_one_character(
    b: Seq<u8>,
    c: int,
    a: Option<int>,
    ev: KeyStroke,
    clip: Option<Seq<char>>,
) -> (p: int)
    requires
        ev.key@ == "backspace"@,
        !ev.platform,
        !ev.alt,
        selection_spec(c, a) is None,
        0 < c <= b.len(),
    ensures
        ({
            let e = edit_spec(b, c, a, ev, clip);
            &&& 0 <= p < c
            &&& at_boundary(b, p)
            &&& forall|j: int| p < j < c ==> !at_boundary(b, j)
            &&& e.text == b.take(p) + b.skip(c)
            &&& e.cursor == p
        }),
{
    reveal_strlit("left");
    reveal_strlit("right");
    reveal_strlit("home");
    reveal_strlit("end");
    reveal_strlit("backspace");
    reveal_strlit("delete");
    assert("backspace"@[0] != "left"@[0]);
    assert("backspace"@[0] != "right"@[0]);
    assert("backspace"@[0] != "home"@[0]);
    assert("backspace"@[0] != "end"@[0]);
    lemma_back_run(b, c - 1);
    let p = prev_boundary_spec(b, c);
    assert(edit_spec(b, c, a, ev, clip).text =~= b.take(p) + b.skip(c));
    p
}

/// Backspace, Delete and Cut with a selection remove exactly the selected
/// bytes and leave the caret where they were, with nothing selected; Cut
/// hands out the selected bytes.
pub proof fn lemma_selection_removed(
    b: Seq<u8>,
    c: int,
    x: int,
    ev: KeyStroke,
    clip: Option<Seq<char>>,
)
    requires
        ev.key@ == "backspace"@ || ev.key@ == "delete"@ || (ev.key@ == "x"@ && ev.platform),
        x != c,
    ensures
        ({
            let e = edit_spec(b, c, Some(x), ev, clip);
            let lo = if c < x { c } else { x };
            let hi = if c < x { x } else { c };
            &&& e.text == b.take(lo) + b.skip(hi)
            &&& e.cursor == lo
            &&& e.anchor is None
            &&& (ev.key@ == "x"@ ==> e.copied == Some(b.subrange(lo, hi)))
        }),
{
    reveal_strlit("left");
    reveal_strlit("right");
    reveal_strlit("home");
    reveal_strlit("end");
    reveal_strlit("backspace");
    reveal_strlit("delete");
    reveal_strlit("x");
    reveal_strlit("v");
    reveal_strlit("c");
    assert("backspace"@[0] != "left"@[0]);
    assert("backspace"@[0] != "right"@[0]);
    assert("backspace"@[0] != "home"@[0]);
    assert("backspace"@[0] != "end"@[0]);
    assert("delete"@[0] != "left"@[0]);
    assert("delete"@[0] != "right"@[0]);
    assert("delete"@[0] != "home"@[0]);
    assert("delete"@[0] != "end"@[0]);
    assert("delete"@[0] != "backspace"@[0]);
    assert("x"@[0] != "left"@[0]);
    assert("x"@[0] != "right"@[0]);
    assert("x"@[0] != "home"@[0]);
    assert("x"@[0] != "end"@[0]);
    assert("x"@[0] != "backspace"@[0]);
    assert("x"@[0] != "delete"@[0]);
    assert("x"@[0] != "v"@[0]);
    assert("x"@[0] != "c"@[0]);
    let lo = if c < x { c } else { x };
    let hi = if c < x { x } else { c };
    assert(splice(b, lo, hi, seq![]) =~= b.take(lo) + b.skip(hi));
}

/// Home puts the caret at the start and End at the end, leaving the text.
pub proof fn lemma_home_and_end(b: Seq<u8>, c: int, a: Option<int>, ev: KeyStroke, clip: Option<Seq<char>>)
    requires
        ev.key@ == "home"@ || ev.key@ == "end"@,
    ensures
        ev.key@ == "home"@ ==> edit_spec(b, c, a, ev, clip).cursor == 0,
        ev.key@ == "end"@ ==> edit_spec(b, c, a, ev, clip).cursor == b.len(),
        edit_spec(b, c, a, ev, clip).text == b,
{
    reveal_strlit("left");
    reveal_strlit("right");
    reveal_strlit("home");
    reveal_strlit("end");
    assert("home"@[0] != "left"@[0]);
    assert("home"@[0] != "right"@[0]);
    assert("end"@[0] != "left"@[0]);
    assert("end"@[0] != "right"@[0]);
    assert("end"@[0] != "home"@[0]);
}

/// Typing with nothing selected puts the typed text at the caret and the
/// caret after it; the rest of the text is kept on both sides.
pub proof fn lemma_typing_inserts_at_caret(
    b: Seq<u8>,
    c: int,
    a: Option<int>,
    ev: KeyStroke,
    clip: Option<Seq<char>>,
)
    requires
        types_text(ev),
        ev.key@ != "left"@ && ev.key@ != "right"@ && ev.key@ != "home"@ && ev.key@ != "end"@,
        ev.key@ != "backspace"@ && ev.key@ != "delete"@,
        selection_spec(c, a) is None,
    ensures
        ({
            let e = edit_spec(b, c, a, ev, clip);
            let t = utf8(ev.key_char->0@);
            &&& e.text == b.take(c) + t + b.skip(c)
            &&& e.cursor == c + t.len()
            &&& e.changed
        }),
{
}

/// Command+A selects the whole text: the anchor at the start, the caret at
/// the end.
pub proof fn lemma_select_all(b: Seq<u8>, c: int, a: Option<int>, ev: KeyStroke, clip: Option<Seq<char>>)
    requires
        ev.key@ == "a"@,
        ev.platform,
    ensures
        edit_spec(b, c, a, ev, clip).cursor == b.len(),
        edit_spec(b, c, a, ev, clip).anchor == Some(0int),
        edit_spec(b, c, a, ev, clip).text == b,
{
    reveal_strlit("left");
    reveal_strlit("right");
    reveal_strlit("home");
    reveal_strlit("end");
    reveal_strlit("backspace");
    reveal_strlit("delete");
    reveal_strlit("a");
    reveal_strlit("v");
    reveal_strlit("c");
    reveal_strlit("x");
    assert("a"@[0] != "left"@[0]);
    assert("a"@[0] != "right"@[0]);
    assert("a"@[0] != "home"@[0]);
    assert("a"@[0] != "end"@[0]);
    assert("a"@[0] != "backspace"@[0]);
    assert("a"@[0] != "delete"@[0]);
    assert("a"@[0] != "v"@[0]);
    assert("a"@[0] != "c"@[0]);
    assert("a"@[0] != "x"@[0]);
}

proof fn lemma_ws_back_run(b: Seq<u8>, i: int)
    requires
        0 <= i <= b.len(),
    ensures
        0 <= skip_ws_back(b, i) <= i,
        forall|j: int| skip_ws_back(b, i) <= j < i ==> ascii_ws(#[trigger] b[j]),
        skip_ws_back(b, i) == 0 || !ascii_ws(b[skip_ws_back(b, i) - 1]),
    decreases i,
{
    if 0 < i && ascii_ws(b[i - 1]) {
        lemma_ws_back_run(b, i - 1);
    }
}

proof fn lemma_word_back_run(b: Seq<u8>, i: int)
    requires
        0 <= i <= b.len(),
    ensures
        0 <= skip_word_back(b, i) <= i,
        forall|j: int| skip_word_back(b, i) <= j < i ==> !ascii_ws(#[trigger] b[j]),
        skip_word_back(b, i) == 0 || ascii_ws(b[skip_word_back(b, i) - 1]),
    decreases i,
{
    if 0 < i && !ascii_ws(b[i - 1]) {
        lemma_word_back_run(b, i - 1);
    }
}

/// Option+Backspace with nothing selected deletes from the start of the
/// previous word to the caret: first the whitespace just before the caret,
/// then the word before it (bytes that are not whitespace), stopping after
/// whitespace or at the start. At least one byte goes and the caret moves
/// to where the deletion began. The result gives where the deletion starts
/// and where the word ends; these conditions fix both.
pub proof fn lemma_option_backspace_removes_previous_word(
    b: Seq<u8>,
    c: int,
    a: Option<int>,
    ev: KeyStroke,
    clip: Option<Seq<char>>,
) -> (r: (int, int))
    requires
        ev.key@ == "backspace"@,
        ev.alt,
        !ev.platform,
        selection_spec(c, a) is None,
        0 < c <= b.len(),
    ensures
        ({
            let e = edit_spec(b, c, a, ev, clip);
            let (st, m) = r;
            &&& 0 <= st <= m <= c
            &&& st < c
            &&& e.cursor == st
            &&& e.anchor == a
            &&& e.changed
            &&& e.text == b.take(st) + b.skip(c)
            &&& forall|j: int| st <= j < m ==> !ascii_ws(#[trigger] b[j])
            &&& forall|j: int| m <= j < c ==> ascii_ws(#[trigger] b[j])
            &&& m == 0 || !ascii_ws(b[m - 1])
            &&& st == 0 || ascii_ws(b[st - 1])
        }),
{
    reveal_strlit("left");
    reveal_strlit("right");
    reveal_strlit("home");
    reveal_strlit("end");
    reveal_strlit("backspace");
    assert("backspace"@[0] != "left"@[0]);
    assert("backspace"@[0] != "right"@[0]);
    assert("backspace"@[0] != "home"@[0]);
    assert("backspace"@[0] != "end"@[0]);
    let m = skip_ws_back(b, c);
    lemma_ws_back_run(b, c);
    lemma_word_back_run(b, m);
    let st = skip_word_back(b, m);
    assert(st == prev_word_spec(b, c));
    if m == c {
        assert(!ascii_ws(b[c - 1]));
        assert(st < c);
    }
    let e = edit_spec(b, c, a, ev, clip);
    assert(e.text =~= b.take(st) + b.skip(c));
    (st, m)
}

/// Option+Right moves the caret to the start of the next word: over the
/// rest of the word it is in, then over the whitespace after it, stopping
/// at the next word or the end. The text stays. The result gives where the
/// word ends; these conditions fix it and the new caret.
pub proof fn lemma_option_right_moves_to_next_word(
    b: Seq<u8>,
    c: int,
    a: Option<int>,
    ev: KeyStroke,
    clip: Option<Seq<char>>,
) -> (m: int)
    requires
        ev.key@ == "right"@,
        ev.alt,
        !ev.platform,
        ev.shift || selection_spec(c, a) is None,
        0 <= c <= b.len(),
    ensures
        ({
            let e = edit_spec(b, c, a, ev, clip);
            &&& c <= m <= e.cursor <= b.len()
            &&& c < b.len() ==> c < e.cursor
            &&& e.text == b
            &&& forall|j: int| c <= j < m ==> !ascii_ws(#[trigger] b[j])
            &&& forall|j: int| m <= j < e.cursor ==> ascii_ws(#[trigger] b[j])
            &&& m == b.len() || ascii_ws(b[m])
            &&& e.cursor == b.len() || !ascii_ws(b[e.cursor])
        }),
{
    reveal_strlit("left");
    reveal_strlit("right");
    assert("right"@[0] != "left"@[0]);
    let m = skip_word_fwd(b, c);
    lemma_word_run(b, c);
    lemma_space_run(b, m);
    if c < b.len() && m == c {
        assert(ascii_ws(b[c]));
    }
    m
}

/// Option+Left moves the caret to the start of the previous word: back
/// over the whitespace before it, then over the word before that, stopping
/// after whitespace or at the start. The text stays. The result gives
/// where the word ends; these conditions fix it and the new caret.
pub proof fn lemma_option_left_moves_to_previous_word(
    b: Seq<u8>,
    c: int,
    a: Option<int>,
    ev: KeyStroke,
    clip: Option<Seq<char>>,
) -> (m: int)
    requires
        ev.key@ == "left"@,
        ev.alt,
        !ev.platform,
        ev.shift || selection_spec(c, a) is None,
        0 <= c <= b.len(),
    ensures
        ({
            let e = edit_spec(b, c, a, ev, clip);
            &&& 0 <= e.cursor <= m <= c
            &&& 0 < c ==> e.cursor < c
            &&& e.text == b
            &&& forall|j: int| e.cursor <= j < m ==> !ascii_ws(#[trigger] b[j])
            &&& forall|j: int| m <= j < c ==> ascii_ws(#[trigger] b[j])
            &&& m == 0 || !ascii_ws(b[m - 1])
            &&& e.cursor == 0 || ascii_ws(b[e.cursor - 1])
        }),
{
    let m = skip_ws_back(b, c);
    lemma_ws_back_run(b, c);
    lemma_word_back_run(b, m);
    if 0 < c && m == c {
        assert(!ascii_ws(b[c - 1]));
    }
    m
}

/// Command+Left and Command+Right go to the start and the end of the text;
/// Command+Backspace with nothing selected deletes everything before the
/// caret and leaves the caret at the start.
pub proof fn lemma_command_keys_reach_the_ends(
    b: Seq<u8>,
    c: int,
    a: Option<int>,
    ev: KeyStroke,
    clip: Option<Seq<char>>,
)
    requires
        ev.platform,
        ev.key@ == "left"@ || ev.key@ == "right"@ || ev.key@ == "backspace"@,
        ev.shift || selection_spec(c, a) is None,
        ev.key@ == "backspace"@ ==> selection_spec(c, a) is None && 0 < c <= b.len(),
    ensures
        ev.key@ == "left"@ ==> edit_spec(b, c, a, ev, clip).cursor == 0,
        ev.key@ == "right"@ ==> edit_spec(b, c, a, ev, clip).cursor == b.len(),
        ev.key@ == "backspace"@ ==> edit_spec(b, c, a, ev, clip).text == b.skip(c),
        ev.key@ == "backspace"@ ==> edit_spec(b, c, a, ev, clip).cursor == 0,
{
    reveal_strlit("left");
    reveal_strlit("right");
    reveal_strlit("home");
    reveal_strlit("end");
    reveal_strlit("backspace");
    assert("backspace"@[0] != "left"@[0]);
    assert("backspace"@[0] != "right"@[0]);
    assert("backspace"@[0] != "home"@[0]);
    assert("backspace"@[0] != "end"@[0]);
    assert("right"@[0] != "left"@[0]);
    if ev.key@ == "backspace"@ {
        assert(edit_spec(b, c, a, ev, clip).text =~= b.skip(c));
    }
}

/// Plain Delete with nothing selected removes exactly the character after
/// the caret: the bytes up to the next character boundary, with no boundary
/// between; the caret stays. At the end nothing changes.
pub proof fn lemma_delete_removes_one_character(
    b: Seq<u8>,
    c: int,
    a: Option<int>,
    ev: KeyStroke,
    clip: Option<Seq<char>>,
) -> (n: int)
    requires
        ev.key@ == "delete"@,
        !ev.alt,
        selection_spec(c, a) is None,
        0 <= c <= b.len(),
    ensures
        ({
            let e = edit_spec(b, c, a, ev, clip);
            &&& c < b.len() ==> c < n <= b.len() && at_boundary(b, n) && (forall|j: int|
                c < j < n ==> !at_boundary(b, j)) && e.text == b.take(c) + b.skip(n) && e.changed
            &&& c == b.len() ==> e.text == b && !e.changed
            &&& e.cursor == c
            &&& e.anchor == a
        }),
{
    reveal_strlit("left");
    reveal_strlit("right");
    reveal_strlit("home");
    reveal_strlit("end");
    reveal_strlit("backspace");
    reveal_strlit("delete");
    assert("delete"@[0] != "left"@[0]);
    assert("delete"@[0] != "right"@[0]);
    assert("delete"@[0] != "home"@[0]);
    assert("delete"@[0] != "end"@[0]);
    assert("delete"@[0] != "backspace"@[0]);
    if c < b.len() {
        lemma_fwd_run(b, c + 1);
        let n = next_boundary_spec(b, c);
        assert(edit_spec(b, c, a, ev, clip).text =~= b.take(c) + b.skip(n));
        n
    } else {
        c
    }
}

/// With shift held, every caret motion keeps the text and extends the
/// selection: the anchor stays where it was, or is set at the old caret
/// when there was none.
pub proof fn lemma_shift_motion_extends_selection(
    b: Seq<u8>,
    c: int,
    a: Option<int>,
    ev: KeyStroke,
    clip: Option<Seq<char>>,
)
    requires
        ev.shift,
        ev.key@ == "left"@ || ev.key@ == "right"@ || ev.key@ == "home"@ || ev.key@ == "end"@,
    ensures
        edit_spec(b, c, a, ev, clip).text == b,
        a is Some ==> edit_spec(b, c, a, ev, clip).anchor == a,
        a is None ==> edit_spec(b, c, a, ev, clip).anchor == Some(c),
{
}

/// Command+C leaves the field as it is and hands out the selected bytes,
/// or nothing when nothing is selected.
pub proof fn lemma_copy_hands_out_selection(
    b: Seq<u8>,
    c: int,
    a: Option<int>,
    ev: KeyStroke,
    clip: Option<Seq<char>>,
)
    requires
        ev.key@ == "c"@,
        ev.platform,
    ensures
        ({
            let e = edit_spec(b, c, a, ev, clip);
            &&& e.text == b
            &&& e.cursor == c
            &&& e.anchor == a
            &&& !e.changed
            &&& (a is Some && a->0 != c ==> e.copied == Some(b.subrange(
                if c < a->0 { c } else { a->0 },
                if c < a->0 { a->0 } else { c },
            )))
            &&& (a is None || a == Some(c) ==> e.copied is None)
        }),
{
    reveal_strlit("left");
    reveal_strlit("right");
    reveal_strlit("home");
    reveal_strlit("end");
    reveal_strlit("backspace");
    reveal_strlit("delete");
    reveal_strlit("v");
    reveal_strlit("c");
    assert("c"@[0] != "left"@[0]);
    assert("c"@[0] != "right"@[0]);
    assert("c"@[0] != "home"@[0]);
    assert("c"@[0] != "end"@[0]);
    assert("c"@[0] != "backspace"@[0]);
    assert("c"@[0] != "delete"@[0]);
    assert("c"@[0] != "v"@[0]);
}

/// Command+V puts the clipboard text, with each line feed turned into a
/// space, in place of the selection or at the caret, and leaves the caret
/// after it; with an empty clipboard nothing changes.
pub proof fn lemma_paste_inserts_clipboard(
    b: Seq<u8>,
    c: int,
    a: Option<int>,
    ev: KeyStroke,
    clip: Option<Seq<char>>,
)
    requires
        ev.key@ == "v"@,
        ev.platform,
    ensures
        ({
            let e = edit_spec(b, c, a, ev, clip);
            &&& clip is None ==> e.text == b && e.cursor == c && !e.changed
            &&& clip matches Some(t) ==> {
                let p = utf8(paste_text(t));
                &&& paste_text(t).len() == t.len()
                &&& forall|i: int| 0 <= i < t.len() ==> (#[trigger] paste_text(t)[i]) == (if t[i]
                    == '\n' {
                    ' '
                } else {
                    t[i]
                })
                &&& (a is None || a == Some(c)) ==> e.text == b.take(c) + p + b.skip(c)
                    && e.cursor == c + p.len()
                &&& (a is Some && a->0 != c) ==> {
                    let lo = if c < a->0 { c } else { a->0 };
                    let hi = if c < a->0 { a->0 } else { c };
                    e.text == b.take(lo) + p + b.skip(hi) && e.cursor == lo + p.len()
                        && e.anchor is None
                }
            }
        }),
{
    reveal_strlit("left");
    reveal_strlit("right");
    reveal_strlit("home");
    reveal_strlit("end");
    reveal_strlit("backspace");
    reveal_strlit("delete");
    reveal_strlit("v");
    assert("v"@[0] != "left"@[0]);
    assert("v"@[0] != "right"@[0]);
    assert("v"@[0] != "home"@[0]);
    assert("v"@[0] != "end"@[0]);
    assert("v"@[0] != "backspace"@[0]);
    assert("v"@[0] != "delete"@[0]);
}

} // verus!
