//! What the result rows, counters and overlays show: a row's name and
//! folder, which characters to highlight, the counters above the list,
//! the empty-list hints, tab titles, the batch-rename preview, the tree's
//! markers and what a click in the tree does.

use crate::edit::utf8;
use crate::fileops::{batch_new_name, file_name_of, path_file_name, push_counted, counted};
use crate::paths::{short_path, short_path_spec};
use crate::preview::{preview_ext, preview_ext_spec};
use crate::session::{sort_label, SearchMode, SortMode};
use crate::names::{is_image, is_image_ext};
use crate::sorting::{lowercase, to_lowercase};
use crate::text::{
    chars_of, decimal, push_char, push_decimal, push_str, split_once, split_once_chars,
    string_from_chars, string_from_range,
};
use vstd::prelude::*;

verus! {

/// The name a row shows: the path's file name, else the displayed path.
pub open spec fn row_name_spec(path: Seq<char>, display: Seq<char>) -> Seq<char> {
    match path_file_name(path) {
        Some(n) => n,
        None => display,
    }
}

/// The name a row shows (see [`row_name_spec`]).
pub fn row_name(path: &str, display: &str) -> (r: String)
    ensures
        r@ == row_name_spec(path@, display@),
{
    match file_name_of(path) {
        Some(n) => n,
        None => display.to_string(),
    }
}

/// Position of the last `c` in `s`.
pub open spec fn last_index(s: Seq<char>, c: char) -> Option<int>
    decreases s.len(),
{
    if s.len() == 0 {
        None
    } else if s.last() == c {
        Some(s.len() - 1)
    } else {
        last_index(s.drop_last(), c)
    }
}

/// The folder part a row shows: the displayed path before its last `/`,
/// empty when it has none.
pub open spec fn parent_text_spec(display: Seq<char>) -> Seq<char> {
    match last_index(display, '/') {
        Some(i) => display.take(i),
        None => seq![],
    }
}

/// The folder part of a displayed path (see [`parent_text_spec`]).
pub fn parent_text(display: &str) -> (r: String)
    ensures
        r@ == parent_text_spec(display@),
{
    let v = chars_of(display);
    let mut i: usize = v.len();
    assert(v@.take(i as int) =~= v@);
    while i > 0 && v[i - 1] != '/'
        invariant
            i <= v@.len(),
            last_index(v@, '/') == last_index(v@.take(i as int), '/'),
        decreases i,
    {
        assert(v@.take(i as int).drop_last() =~= v@.take(i - 1));
        i -= 1;
    }
    if i == 0 {
        assert(v@.take(0) =~= Seq::<char>::empty());
        String::new()
    } else {
        string_from_range(v.as_slice(), 0, i - 1)
    }
}

/// The indices at or above `p`, moved down by `p`, in order.
pub open spec fn shifted(idx: Seq<u32>, p: u32) -> Seq<u32>
    decreases idx.len(),
{
    if idx.len() == 0 {
        seq![]
    } else if idx.last() >= p {
        shifted(idx.drop_last(), p).push((idx.last() - p) as u32)
    } else {
        shifted(idx.drop_last(), p)
    }
}

/// How far the name starts into the displayed path: the difference of
/// their byte lengths (none if the name is longer), as a `u32`.
pub open spec fn name_offset(display: Seq<char>, name: Seq<char>) -> u32 {
    (if utf8(display).len() >= utf8(name).len() {
        utf8(display).len() - utf8(name).len()
    } else {
        0
    }) as u32
}

/// The matched positions of the displayed path that fall in the name,
/// counted from the name's start.
pub fn name_indices(indices: &[u32], display: &str, name: &str) -> (r: Vec<u32>)
    ensures
        r@ == shifted(indices@, name_offset(display@, name@)),
{
    let dl = display.as_bytes().len();
    let nl = name.as_bytes().len();
    let diff: usize = if dl >= nl {
        dl - nl
    } else {
        0
    };
    let p: u32 = diff as u32;
    let mut out: Vec<u32> = Vec::new();
    let mut i: usize = 0;
    assert(indices@.take(0) =~= Seq::<u32>::empty());
    while i < indices.len()
        invariant
            i <= indices@.len(),
            p == name_offset(display@, name@),
            out@ == shifted(indices@.take(i as int), p),
        decreases indices@.len() - i,
    {
        assert(indices@.take(i + 1).drop_last() =~= indices@.take(i as int));
        assert(indices@.take(i + 1).last() == indices@[i as int]);
        if indices[i] >= p {
            out.push(indices[i] - p);
        }
        i += 1;
    }
    assert(indices@.take(indices@.len() as int) =~= indices@);
    out
}

/// The byte positions covered by the occurrences of `n` in `h` found from
/// `i` on, leftmost first and without overlap.
pub open spec fn hit_marks(h: Seq<u8>, n: Seq<u8>, i: int) -> Seq<int>
    decreases h.len() - i,
{
    if n.len() == 0 || i < 0 || i + n.len() > h.len() {
        seq![]
    } else if h.subrange(i, i + n.len()) == n {
        Seq::new(n.len(), |k: int| i + k) + hit_marks(h, n, i + n.len())
    } else {
        hit_marks(h, n, i + 1)
    }
}

/// `h[i..]` starts with `n`.
fn bytes_at(h: &[u8], i: usize, n: &[u8]) -> (r: bool)
    requires
        i + n@.len() <= h@.len(),
    ensures
        r == (h@.subrange(i as int, i + n@.len()) == n@),
{
    let hl = h.len();
    let mut j: usize = 0;
    while j < n.len()
        invariant
            hl == h@.len(),
            i + n@.len() <= h@.len(),
            j <= n@.len(),
            forall|k: int| 0 <= k < j ==> h@[i + k] == n@[k],
        decreases n@.len() - j,
    {
        if h[i + j] != n[j] {
            assert(h@.subrange(i as int, i + n@.len())[j as int] != n@[j as int]);
            return false;
        }
        j += 1;
    }
    assert(h@.subrange(i as int, i + n@.len()) =~= n@);
    true
}

/// The byte positions of a hit's text to highlight: where the query occurs
/// in it, both lower-cased, as `u32`s.
pub open spec fn hit_positions_spec(text: Seq<char>, query: Seq<char>) -> Seq<u32> {
    hit_marks(utf8(lowercase(text)), utf8(lowercase(query)), 0).map_values(|x: int| x as u32)
}

/// The positions of a hit's text that the query matched, case-folded (see
/// [`hit_positions_spec`]).
pub fn hit_positions(text: &str, query: &str) -> (r: Vec<u32>)
    ensures
        r@ == hit_positions_spec(text@, query@),
{
    let tl = to_lowercase(text);
    let ql = to_lowercase(query);
    let h = tl.as_str().as_bytes();
    let n = ql.as_str().as_bytes();
    let ghost marks = hit_marks(h@, n@, 0);
    let mut out: Vec<u32> = Vec::new();
    if n.len() == 0 {
        assert(out@ =~= marks.map_values(|x: int| x as u32));
        return out;
    }
    let hl = h.len();
    let nl = n.len();
    if nl > hl {
        assert(out@ =~= marks.map_values(|x: int| x as u32));
        return out;
    }
    let mut i: usize = 0;
    assert(out@ + hit_marks(h@, n@, 0).map_values(|x: int| x as u32) =~= marks.map_values(
        |x: int| x as u32,
    ));
    while i <= hl - nl
        invariant
            hl == h@.len(),
            nl == n@.len(),
            nl <= hl,
            n@.len() > 0,
            i <= h@.len(),
            h@ == utf8(lowercase(text@)),
            n@ == utf8(lowercase(query@)),
            marks == hit_marks(h@, n@, 0),
            out@ + hit_marks(h@, n@, i as int).map_values(|x: int| x as u32) == marks.map_values(
                |x: int| x as u32,
            ),
        decreases h@.len() - i,
    {
        if bytes_at(h, i, n) {
            let ghost before = out@;
            let mut k: usize = 0;
            while k < n.len()
                invariant
                    hl == h@.len(),
                    i + n@.len() <= h@.len(),
                    k <= n@.len(),
                    out@ == before + Seq::new(k as nat, |j: int| (i + j) as u32),
                decreases n@.len() - k,
            {
                out.push(#[verifier::truncate] ((i + k) as u32));
                assert(out@ =~= before + Seq::new((k + 1) as nat, |j: int| (i + j) as u32));
                k += 1;
            }
            proof {
                let here = Seq::new(n@.len(), |j: int| i + j);
                assert(hit_marks(h@, n@, i as int) == here + hit_marks(h@, n@, i + n@.len()));
                assert((here + hit_marks(h@, n@, i + n@.len())).map_values(|x: int| x as u32)
                    =~= Seq::new(n@.len(), |j: int| (i + j) as u32) + hit_marks(
                    h@,
                    n@,
                    i + n@.len(),
                ).map_values(|x: int| x as u32));
                assert(out@ + hit_marks(h@, n@, i + n@.len()).map_values(|x: int| x as u32)
                    =~= marks.map_values(|x: int| x as u32));
            }
            i = i + nl;
        } else {
            i = i + 1;
        }
    }
    assert(hit_marks(h@, n@, i as int) =~= Seq::<int>::empty());
    assert(out@ =~= out@ + Seq::<int>::empty().map_values(|x: int| x as u32));
    out
}

/// Images up to this many bytes are drawn as their own icon.
pub const IMAGE_ICON_MAX: u64 = 2097152;

/// A row shows the image itself as its icon: a file of an image type not
/// larger than [`IMAGE_ICON_MAX`] (`size` is `None` when unknown).
pub open spec fn image_icon_spec(path: Seq<char>, is_dir: bool, size: Option<u64>) -> bool {
    !is_dir && (size matches Some(n) && n <= IMAGE_ICON_MAX) && is_image_ext(
        preview_ext_spec(path),
    )
}

/// Whether a row's icon is the image itself (see [`image_icon_spec`]).
pub fn shows_image_icon(path: &str, is_dir: bool, size: Option<u64>) -> (r: bool)
    ensures
        r == image_icon_spec(path@, is_dir, size),
{
    let size_ok = match size {
        Some(n) => n <= IMAGE_ICON_MAX,
        None => false,
    };
    if is_dir || !size_ok {
        return false;
    }
    let e = preview_ext(path);
    is_image(e.as_str())
}

/// The note after a counter while results are still coming.
pub open spec fn scanning_suffix(done: bool) -> Seq<char> {
    if done {
        ""@
    } else {
        " · scanning…"@
    }
}

fn push_scanning(s: &mut String, done: bool)
    ensures
        final(s)@ == old(s)@ + scanning_suffix(done),
{
    if done {
        push_str(s, "");
    } else {
        push_str(s, " · scanning…");
    }
}

/// The file-search counter: results shown of entries indexed.
pub fn filename_counter(shown: u64, total: u64, done: bool) -> (r: String)
    ensures
        r@ == decimal(shown as nat) + " / "@ + decimal(total as nat) + scanning_suffix(done),
{
    let mut s = String::new();
    push_decimal(&mut s, shown);
    push_str(&mut s, " / ");
    push_decimal(&mut s, total);
    push_scanning(&mut s, done);
    assert(s@ =~= decimal(shown as nat) + " / "@ + decimal(total as nat) + scanning_suffix(done));
    s
}

/// The content-search counter.
pub fn content_counter(matches: u64, done: bool) -> (r: String)
    ensures
        r@ == decimal(matches as nat) + " match"@ + scanning_suffix(done),
{
    let mut s = String::new();
    push_decimal(&mut s, matches);
    push_str(&mut s, " match");
    push_scanning(&mut s, done);
    assert(s@ =~= decimal(matches as nat) + " match"@ + scanning_suffix(done));
    s
}

/// What an empty result list says: a heading and a hint.
pub open spec fn empty_list_spec(query: Seq<char>) -> (Seq<char>, Seq<char>) {
    if query.len() == 0 {
        ("Indexing files…"@, "If this stays empty, try ⌘H to show hidden files."@)
    } else {
        (
            "No matches for “"@ + query + "”"@,
            "Try a shorter query or ⌘H to include hidden files."@,
        )
    }
}

/// The heading and hint of an empty result list (see [`empty_list_spec`]).
pub fn empty_list_text(query: &str) -> (r: (String, String))
    ensures
        (r.0@, r.1@) == empty_list_spec(query@),
{
    if chars_of(query).len() == 0 {
        (
            "Indexing files…".to_string(),
            "If this stays empty, try ⌘H to show hidden files.".to_string(),
        )
    } else {
        let mut s = String::new();
        push_str(&mut s, "No matches for “");
        push_str(&mut s, query);
        push_str(&mut s, "”");
        (s, "Try a shorter query or ⌘H to include hidden files.".to_string())
    }
}

/// The batch-rename overlay's heading.
pub fn batch_heading(n: u64) -> (r: String)
    ensures
        r@ == "BATCH RENAME · "@ + counted(n as nat, "item"@),
{
    let mut s = String::new();
    push_str(&mut s, "BATCH RENAME · ");
    push_counted(&mut s, n, "item");
    s
}

/// A tab's title: the name of its folder, else the folder's path with the
/// home directory abbreviated.
pub open spec fn tab_title_spec(root: Seq<char>, home: Seq<char>) -> Seq<char> {
    match path_file_name(root) {
        Some(n) => n,
        None => short_path_spec(root, home),
    }
}

/// A tab's title (see [`tab_title_spec`]).
pub fn tab_title(root: &str, home: &str) -> (r: String)
    ensures
        r@ == tab_title_spec(root@, home@),
{
    match file_name_of(root) {
        Some(n) => n,
        None => short_path(root, home),
    }
}

/// At most this many marked entries are previewed in a batch rename.
pub const BATCH_PREVIEW_MAX: usize = 5;

/// The batch-rename preview for typed text: with a non-empty text before
/// its first `/`, each of the first [`BATCH_PREVIEW_MAX`] marked paths that
/// has a name, with that name and what it becomes.
pub open spec fn batch_preview_spec(input: Seq<char>, marked: Seq<Seq<char>>) -> Seq<(Seq<char>, Seq<char>)> {
    match split_once(input, '/') {
        Some((find, rep)) => if find.len() > 0 {
            preview_pairs(
                if marked.len() > BATCH_PREVIEW_MAX {
                    marked.take(BATCH_PREVIEW_MAX as int)
                } else {
                    marked
                },
                find,
                rep,
            )
        } else {
            seq![]
        },
        None => seq![],
    }
}

/// Each path that has a name, with its name and what the replacement
/// makes of it.
pub open spec fn preview_pairs(ps: Seq<Seq<char>>, find: Seq<char>, rep: Seq<char>) -> Seq<(Seq<char>, Seq<char>)>
    decreases ps.len(),
{
    if ps.len() == 0 {
        seq![]
    } else {
        match path_file_name(ps.last()) {
            Some(n) => preview_pairs(ps.drop_last(), find, rep).push(
                (n, crate::fileops::replace_all(n, find, rep)),
            ),
            None => preview_pairs(ps.drop_last(), find, rep),
        }
    }
}

/// The batch-rename overlay's live preview (see [`batch_preview_spec`]).
pub fn batch_preview(input: &str, marked: &Vec<String>) -> (r: Vec<(String, String)>)
    ensures
        r@.map_values(|p: (String, String)| (p.0@, p.1@)) == batch_preview_spec(
            input@,
            marked@.map_values(|s: String| s@),
        ),
{
    let ghost mv = marked@.map_values(|s: String| s@);
    let mut out: Vec<(String, String)> = Vec::new();
    let v = chars_of(input);
    let (find, rep) = match split_once_chars(v.as_slice(), '/') {
        Some(p) => p,
        None => {
            assert(out@.map_values(|p: (String, String)| (p.0@, p.1@)) =~= Seq::<
                (Seq<char>, Seq<char>),
            >::empty());
            return out;
        },
    };
    if find.len() == 0 {
        assert(out@.map_values(|p: (String, String)| (p.0@, p.1@)) =~= Seq::<
            (Seq<char>, Seq<char>),
        >::empty());
        return out;
    }
    let m = if marked.len() > BATCH_PREVIEW_MAX {
        BATCH_PREVIEW_MAX
    } else {
        marked.len()
    };
    let ghost taken = if mv.len() > BATCH_PREVIEW_MAX {
        mv.take(BATCH_PREVIEW_MAX as int)
    } else {
        mv
    };
    let mut i: usize = 0;
    assert(taken.take(0) =~= Seq::<Seq<char>>::empty());
    while i < m
        invariant
            m <= marked@.len(),
            mv == marked@.map_values(|s: String| s@),
            taken.len() == m,
            forall|k: int| 0 <= k < m ==> #[trigger] taken[k] == mv[k],
            find@.len() > 0,
            i <= m,
            out@.map_values(|p: (String, String)| (p.0@, p.1@)) == preview_pairs(
                taken.take(i as int),
                find@,
                rep@,
            ),
        decreases m - i,
    {
        assert(taken.take(i + 1).drop_last() =~= taken.take(i as int));
        assert(taken.take(i + 1).last() == marked@[i as int]@);
        match file_name_of(marked[i].as_str()) {
            Some(name) => {
                let nv = chars_of(name.as_str());
                let renamed = crate::fileops::replace_all_chars(
                    nv.as_slice(),
                    find.as_slice(),
                    rep.as_slice(),
                );
                let ghost before = out@.map_values(|p: (String, String)| (p.0@, p.1@));
                let ghost pair = (name@, renamed@);
                out.push((name, string_from_chars(renamed.as_slice())));
                assert(out@.map_values(|p: (String, String)| (p.0@, p.1@)) =~= before.push(pair));
            },
            None => {},
        }
        i += 1;
    }
    assert(taken.take(m as int) =~= taken);
    out
}

/// The marker before a tree row: open or closed for a folder, blank for a
/// file.
pub fn tree_marker(is_dir: bool, expanded: bool) -> (r: &'static str)
    ensures
        r@ == (if is_dir {
            if expanded {
                "▾"@
            } else {
                "▸"@
            }
        } else {
            " "@
        }),
{
    if is_dir {
        if expanded {
            "▾"
        } else {
            "▸"
        }
    } else {
        " "
    }
}

/// What a click on a tree row does.
#[derive(PartialEq, Eq, Structural, Clone, Copy, Debug)]
pub enum TreeClick {
    /// Make the folder the root.
    Enter,
    /// Open or close the folder in the tree.
    Toggle,
    /// Open the file.
    Open,
    /// Nothing.
    Ignore,
}

/// The action for a click on a tree row: a double click enters a folder or
/// opens a file, a single click opens or closes a folder.
pub fn tree_click(is_dir: bool, click_count: usize) -> (r: TreeClick)
    ensures
        r == (if is_dir && click_count >= 2 {
            TreeClick::Enter
        } else if is_dir {
            TreeClick::Toggle
        } else if click_count >= 2 {
            TreeClick::Open
        } else {
            TreeClick::Ignore
        }),
{
    if is_dir && click_count >= 2 {
        TreeClick::Enter
    } else if is_dir {
        TreeClick::Toggle
    } else if click_count >= 2 {
        TreeClick::Open
    } else {
        TreeClick::Ignore
    }
}

proof fn lemma_preview_pairs(ps: Seq<Seq<char>>, find: Seq<char>, rep: Seq<char>)
    ensures
        forall|j: int|
            0 <= j < preview_pairs(ps, find, rep).len() ==> (#[trigger] preview_pairs(
                ps,
                find,
                rep,
            )[j]).1 == crate::fileops::replace_all(preview_pairs(ps, find, rep)[j].0, find, rep),
    decreases ps.len(),
{
    if ps.len() > 0 {
        lemma_preview_pairs(ps.drop_last(), find, rep);
        let before = preview_pairs(ps.drop_last(), find, rep);
        let all = preview_pairs(ps, find, rep);
        match path_file_name(ps.last()) {
            Some(n) => {
                assert(all == before.push((n, crate::fileops::replace_all(n, find, rep))));
                assert forall|j: int| 0 <= j < all.len() implies (#[trigger] all[j]).1
                    == crate::fileops::replace_all(all[j].0, find, rep) by {
                    if j < before.len() {
                        assert(all[j] == before[j]);
                    }
                }
            },
            None => {
                assert(all == before);
            },
        }
    }
}

/// The batch-rename preview shows what submitting the same text does: for a
/// text without surrounding whitespace that the rename accepts, each
/// previewed name comes with the name the rename gives it, and the rename
/// leaves exactly the names whose preview is unchanged.
pub proof fn lemma_preview_matches_rename(input: Seq<char>, marked: Seq<Seq<char>>)
    requires
        crate::text::trim(input) == input,
    ensures
        crate::fileops::batch_input_spec(input) matches Ok((find, rep)) ==> forall|j: int|
            0 <= j < batch_preview_spec(input, marked).len() ==> {
                let (name, shown) = #[trigger] batch_preview_spec(input, marked)[j];
                &&& shown == crate::fileops::replace_all(name, find, rep)
                &&& batch_new_name(name, find, rep) == if shown == name {
                    None
                } else {
                    Some(shown)
                }
            },
{
    match crate::fileops::batch_input_spec(input) {
        Ok((find, rep)) => {
            let ps = if marked.len() > BATCH_PREVIEW_MAX {
                marked.take(BATCH_PREVIEW_MAX as int)
            } else {
                marked
            };
            assert(batch_preview_spec(input, marked) == preview_pairs(ps, find, rep));
            lemma_preview_pairs(ps, find, rep);
        },
        Err(_) => {},
    }
}

/// The keyboard hints along the footer, key then action, left to right.
pub open spec fn footer_hints_spec() -> Seq<(Seq<char>, Seq<char>)> {
    seq![
        ("↵"@, "open"@),
        ("⌘↵"@, "reveal"@),
        ("⇥"@, "descend"@),
        ("⇧⇥"@, "up"@),
        ("␣"@, "quicklook"@),
        ("⌘L"@, "go to"@),
        ("⌘F"@, "find"@),
        ("⌘C"@, "copy"@),
        ("⌘⇧C"@, "copy name"@),
        ("⌘⌫"@, "trash"@),
        ("⌘F2"@, "batch rename"@),
        ("⌘Z"@, "undo"@),
        ("⌘B"@, "bookmark"@),
        ("⌘A"@, "select all"@),
        ("⌘J"@, "sort"@),
        ("⌘T"@, "new tab"@),
        ("⌘W"@, "close tab"@),
        ("⌘⇧N"@, "new folder"@),
        ("⌘V"@, "paste here"@),
        ("⌘\\"@, "tree"@),
        ("⌘N"@, "new win"@),
        ("⌘,"@, "settings"@),
        ("⌘H"@, "hidden"@),
        ("⌘R"@, "refresh"@),
    ]
}

/// The footer's keyboard hints (see [`footer_hints_spec`]).
pub fn footer_hints() -> (r: Vec<(&'static str, &'static str)>)
    ensures
        r@.map_values(|h: (&'static str, &'static str)| (h.0@, h.1@)) == footer_hints_spec(),
{
    let v = vec![
        ("↵", "open"),
        ("⌘↵", "reveal"),
        ("⇥", "descend"),
        ("⇧⇥", "up"),
        ("␣", "quicklook"),
        ("⌘L", "go to"),
        ("⌘F", "find"),
        ("⌘C", "copy"),
        ("⌘⇧C", "copy name"),
        ("⌘⌫", "trash"),
        ("⌘F2", "batch rename"),
        ("⌘Z", "undo"),
        ("⌘B", "bookmark"),
        ("⌘A", "select all"),
        ("⌘J", "sort"),
        ("⌘T", "new tab"),
        ("⌘W", "close tab"),
        ("⌘⇧N", "new folder"),
        ("⌘V", "paste here"),
        ("⌘\\", "tree"),
        ("⌘N", "new win"),
        ("⌘,", "settings"),
        ("⌘H", "hidden"),
        ("⌘R", "refresh"),
    ];
    assert(v@.map_values(|h: (&'static str, &'static str)| (h.0@, h.1@)) =~= footer_hints_spec());
    v
}

/// The footer's sort badge: `⇅` and the sort's name.
pub fn sort_badge(sort: SortMode) -> (r: String)
    ensures
        r@ == "⇅ "@ + sort_label(sort),
{
    let mut s = String::new();
    push_str(&mut s, "⇅ ");
    push_str(&mut s, sort.label());
    s
}

/// The kind the preview names an entry by.
pub fn entry_kind(is_dir: bool, is_symlink: bool) -> (r: &'static str)
    ensures
        r@ == (if is_dir {
            "Folder"@
        } else if is_symlink {
            "Symlink"@
        } else {
            "File"@
        }),
{
    if is_dir {
        "Folder"
    } else if is_symlink {
        "Symlink"
    } else {
        "File"
    }
}

/// The search bar: the mode's badge, and the query followed by a caret, or
/// the mode's placeholder while the query is empty.
pub open spec fn search_bar_spec(mode: SearchMode, query: Seq<char>) -> (Seq<char>, Seq<char>) {
    let badge = match mode {
        SearchMode::Filename => "FILES"@,
        SearchMode::Content => "CONTENT"@,
    };
    let text = if query.len() == 0 {
        match mode {
            SearchMode::Filename => "Search filenames…"@,
            SearchMode::Content => "Search inside files…"@,
        }
    } else {
        query + "▏"@
    };
    (badge, text)
}

/// The search bar's badge and text (see [`search_bar_spec`]).
pub fn search_bar(mode: SearchMode, query: &str) -> (r: (&'static str, String))
    ensures
        (r.0@, r.1@) == search_bar_spec(mode, query@),
{
    let badge = match mode {
        SearchMode::Filename => "FILES",
        SearchMode::Content => "CONTENT",
    };
    let text = if chars_of(query).len() == 0 {
        match mode {
            SearchMode::Filename => "Search filenames…".to_string(),
            SearchMode::Content => "Search inside files…".to_string(),
        }
    } else {
        let mut s = query.to_string();
        push_str(&mut s, "▏");
        s
    };
    (badge, text)
}

/// The settings' hidden-files chips: label, the value it sets, and whether
/// it is the current one.
pub fn hidden_chips(show_hidden: bool) -> (r: Vec<(&'static str, bool, bool)>)
    ensures
        r@.map_values(|c: (&'static str, bool, bool)| (c.0@, c.1, c.2)) == seq![
            ("Show"@, true, show_hidden),
            ("Hide"@, false, !show_hidden),
        ],
{
    let v = vec![("Show", true, show_hidden), ("Hide", false, !show_hidden)];
    assert(v@.map_values(|c: (&'static str, bool, bool)| (c.0@, c.1, c.2)) =~= seq![
        ("Show"@, true, show_hidden),
        ("Hide"@, false, !show_hidden),
    ]);
    v
}

/// The settings' default-sort chips: label, the sort it sets, and whether
/// it is the current one.
pub fn sort_chips(sort: SortMode) -> (r: Vec<(&'static str, SortMode, bool)>)
    ensures
        r@.map_values(|c: (&'static str, SortMode, bool)| (c.0@, c.1, c.2)) == seq![
            ("Relevance"@, SortMode::Relevance, sort == SortMode::Relevance),
            ("Name"@, SortMode::Name, sort == SortMode::Name),
            ("Size"@, SortMode::Size, sort == SortMode::Size),
            ("Modified"@, SortMode::Modified, sort == SortMode::Modified),
        ],
{
    let v = vec![
        ("Relevance", SortMode::Relevance, sort == SortMode::Relevance),
        ("Name", SortMode::Name, sort == SortMode::Name),
        ("Size", SortMode::Size, sort == SortMode::Size),
        ("Modified", SortMode::Modified, sort == SortMode::Modified),
    ];
    assert(v@.map_values(|c: (&'static str, SortMode, bool)| (c.0@, c.1, c.2)) =~= seq![
        ("Relevance"@, SortMode::Relevance, sort == SortMode::Relevance),
        ("Name"@, SortMode::Name, sort == SortMode::Name),
        ("Size"@, SortMode::Size, sort == SortMode::Size),
        ("Modified"@, SortMode::Modified, sort == SortMode::Modified),
    ]);
    v
}

} // verus!
