//! The preview pane's decisions: for a folder, a grid of its images or a
//! sorted listing; for a file, an image, a Quick Look thumbnail, highlighted
//! text, or a note saying why there is none.
//!
//! Reading the folder, the file's size and content, and making the
//! thumbnail are the caller's; this module decides what to show from what
//! they found.

use crate::fileops::{file_name_of, path_file_name, push_counted, counted};
use crate::names::{
    ascii_lower, is_image, is_image_ext, is_quicklookable_ext, is_textual, is_textual_ext,
    to_ascii_lowercase,
};
use crate::sorting::{is_permutation, order_by_text, stable_text, char_views};
use crate::text::{chars_of, decimal, push_char, push_decimal, push_str, string_from_chars};
use vstd::prelude::*;

verus! {

/// The extension of a path as text (`Path::extension`): `None` for a name
/// without a `.` after its first character.
pub uninterp spec fn path_extension(p: Seq<char>) -> Option<Seq<char>>;

/// `Path::extension`, as text.
#[verifier::external_body]
fn extension_text(p: &str) -> (r: Option<String>)
    ensures
        r matches Some(e) ==> path_extension(p@) == Some(e@),
        r is None ==> path_extension(p@) is None,
{
    std::path::Path::new(p).extension().map(|e| e.to_string_lossy().into_owned())
}

/// The lower-cased extension a preview goes by, empty without one.
pub open spec fn preview_ext_spec(p: Seq<char>) -> Seq<char> {
    match path_extension(p) {
        Some(e) => ascii_lower(e),
        None => seq![],
    }
}

/// The extension a preview goes by (see [`preview_ext_spec`]).
pub fn preview_ext(path: &str) -> (r: String)
    ensures
        r@ == preview_ext_spec(path@),
{
    match extension_text(path) {
        Some(e) => to_ascii_lowercase(e.as_str()),
        None => String::new(),
    }
}

/// Files above this many bytes are not previewed as text.
pub const TEXT_PREVIEW_MAX: u64 = 262144;

/// Lines of a text file that the preview highlights.
pub const PREVIEW_LINES: usize = 60;

/// What the preview shows for a file.
#[derive(PartialEq, Eq, Structural, Clone, Copy, Debug)]
pub enum FilePreview {
    /// The file as an image.
    Image,
    /// Its Quick Look thumbnail.
    QuickLook,
    /// A note that the file is empty.
    Empty,
    /// A note that it is too large.
    TooLarge,
    /// Its first lines, highlighted.
    Text,
    /// A note that it is binary.
    Binary,
}

impl FilePreview {
    /// The note shown for the preview, if it is one.
    pub fn note(self) -> (r: Option<&'static str>)
        ensures
            r matches Some(s) ==> s@ == (match self {
                FilePreview::QuickLook => "Quick Look preview"@,
                FilePreview::Empty => "(empty file)"@,
                FilePreview::TooLarge => "(file too large to preview)"@,
                FilePreview::Binary => "(binary file — press Space to Quick Look)"@,
                _ => Seq::<char>::empty(),
            }),
            r is None <==> (self == FilePreview::Image || self == FilePreview::Text),
    {
        match self {
            FilePreview::Image => None,
            FilePreview::QuickLook => Some("Quick Look preview"),
            FilePreview::Empty => Some("(empty file)"),
            FilePreview::TooLarge => Some("(file too large to preview)"),
            FilePreview::Text => None,
            FilePreview::Binary => Some("(binary file — press Space to Quick Look)"),
        }
    }
}

/// The note shown when a text file could not be read.
pub fn unreadable_note() -> (r: &'static str)
    ensures
        r@ == "(could not read)"@,
{
    "(could not read)"
}

/// Whether the preview of `path` wants a Quick Look thumbnail: not an
/// image, but of a kind Quick Look renders.
pub open spec fn wants_thumbnail_spec(path: Seq<char>) -> bool {
    !is_image_ext(preview_ext_spec(path)) && is_quicklookable_ext(preview_ext_spec(path))
}

/// Whether to make a thumbnail before choosing the preview.
pub fn wants_thumbnail(path: &str) -> (r: bool)
    ensures
        r == wants_thumbnail_spec(path@),
{
    let e = preview_ext(path);
    !is_image(e.as_str()) && crate::names::is_quicklookable(e.as_str())
}

/// The file counts as text by its extension or by its lower-cased name.
pub open spec fn textual_spec(path: Seq<char>) -> bool {
    is_textual_ext(preview_ext_spec(path)) || match path_file_name(path) {
        Some(n) => is_textual_ext(ascii_lower(n)),
        None => false,
    }
}

/// The preview of a file: an image by its extension; else its thumbnail
/// when there is one; else, for text, a note when it is empty or larger than
/// [`TEXT_PREVIEW_MAX`], otherwise its lines; else a binary-file note.
pub open spec fn file_preview_spec(path: Seq<char>, thumbnail: bool, size: u64) -> FilePreview {
    if is_image_ext(preview_ext_spec(path)) {
        FilePreview::Image
    } else if is_quicklookable_ext(preview_ext_spec(path)) && thumbnail {
        FilePreview::QuickLook
    } else if textual_spec(path) {
        if size == 0 {
            FilePreview::Empty
        } else if size > TEXT_PREVIEW_MAX {
            FilePreview::TooLarge
        } else {
            FilePreview::Text
        }
    } else {
        FilePreview::Binary
    }
}

/// What to preview for a file (see [`file_preview_spec`]); `thumbnail` says
/// whether a thumbnail was made, `size` is the file's size (0 if unknown).
pub fn file_preview(path: &str, thumbnail: bool, size: u64) -> (r: FilePreview)
    ensures
        r == file_preview_spec(path@, thumbnail, size),
{
    let e = preview_ext(path);
    if is_image(e.as_str()) {
        return FilePreview::Image;
    }
    if crate::names::is_quicklookable(e.as_str()) && thumbnail {
        return FilePreview::QuickLook;
    }
    let by_name = match file_name_of(path) {
        Some(n) => {
            let l = to_ascii_lowercase(n.as_str());
            is_textual(l.as_str())
        },
        None => false,
    };
    if is_textual(e.as_str()) || by_name {
        if size == 0 {
            FilePreview::Empty
        } else if size > TEXT_PREVIEW_MAX {
            FilePreview::TooLarge
        } else {
            FilePreview::Text
        }
    } else {
        FilePreview::Binary
    }
}

/// A folder shows a grid of its images when it has at least this many.
pub const GRID_MIN_IMAGES: usize = 4;

/// At most this many images are gathered for the grid.
pub const GRID_MAX_IMAGES: usize = 12;

/// At most this many entries of a listing are shown.
pub const LISTING_MAX: usize = 40;

/// The paths of the first image files of a folder's entries, at most
/// [`GRID_MAX_IMAGES`].
pub open spec fn folder_images_spec(entries: Seq<(Seq<char>, bool)>) -> Seq<Seq<char>>
    decreases entries.len(),
{
    if entries.len() == 0 {
        seq![]
    } else {
        let before = folder_images_spec(entries.drop_last());
        let (p, is_file) = entries.last();
        if before.len() < GRID_MAX_IMAGES && is_file && path_extension(p) is Some
            && is_image_ext(preview_ext_spec(p)) {
            before.push(p)
        } else {
            before
        }
    }
}

/// The images of a folder for its grid (see [`folder_images_spec`]); each
/// entry is a path and whether it is a regular file.
pub fn folder_images(entries: &Vec<(String, bool)>) -> (r: Vec<String>)
    ensures
        r@.map_values(|s: String| s@) == folder_images_spec(
            entries@.map_values(|e: (String, bool)| (e.0@, e.1)),
        ),
{
    let ghost ev = entries@.map_values(|e: (String, bool)| (e.0@, e.1));
    let mut out: Vec<String> = Vec::new();
    let mut i: usize = 0;
    assert(ev.take(0) =~= Seq::<(Seq<char>, bool)>::empty());
    while i < entries.len()
        invariant
            i <= entries@.len(),
            ev == entries@.map_values(|e: (String, bool)| (e.0@, e.1)),
            out@.map_values(|s: String| s@) == folder_images_spec(ev.take(i as int)),
        decreases entries@.len() - i,
    {
        assert(ev.take(i + 1).drop_last() =~= ev.take(i as int));
        assert(ev.take(i + 1).last() == ev[i as int]);
        let p = &entries[i].0;
        let is_file = entries[i].1;
        if out.len() < GRID_MAX_IMAGES && is_file {
            match extension_text(p.as_str()) {
                Some(e) => {
                    let l = to_ascii_lowercase(e.as_str());
                    if is_image(l.as_str()) {
                        let ghost before = out@.map_values(|s: String| s@);
                        out.push(string_from_chars(chars_of(p.as_str()).as_slice()));
                        assert(out@.map_values(|s: String| s@) =~= before.push(p@));
                    }
                },
                None => {},
            }
        }
        i += 1;
    }
    assert(ev.take(entries@.len() as int) =~= ev);
    out
}

/// Whether a folder's images make a grid.
pub fn shows_grid(images: &Vec<String>) -> (r: bool)
    ensures
        r == (images@.len() >= GRID_MIN_IMAGES),
{
    images.len() >= GRID_MIN_IMAGES
}

/// The grid's caption.
pub fn grid_caption(n: u64) -> (r: String)
    ensures
        r@ == decimal(n as nat) + " images in this folder"@,
{
    let mut s = String::new();
    push_decimal(&mut s, n);
    push_str(&mut s, " images in this folder");
    s
}

/// An entry as listed: its name, with `/` after a folder's.
pub open spec fn listing_label(name: Seq<char>, is_dir: bool) -> Seq<char> {
    if is_dir {
        name.push('/')
    } else {
        name
    }
}

/// A folder's listing: how many entries it has and the labels shown.
pub struct Listing {
    pub total: usize,
    pub shown: Vec<String>,
}

/// The labels of a folder's entries (name and whether it is a folder).
pub open spec fn listing_labels(entries: Seq<(String, bool)>) -> Seq<Seq<char>> {
    entries.map_values(|e: (String, bool)| listing_label(e.0@, e.1))
}

/// A folder's listing: all its labels sorted, the first [`LISTING_MAX`]
/// shown, and the count.
pub fn folder_listing(entries: &Vec<(String, bool)>) -> (r: Listing)
    ensures
        r.total == entries@.len(),
        exists|o: Seq<usize>|
            is_permutation(o, entries@.len()) && stable_text(o, listing_labels(entries@))
                && r.shown@.len() == (if entries@.len() < LISTING_MAX {
                entries@.len() as int
            } else {
                LISTING_MAX as int
            }) && forall|k: int|
                0 <= k < r.shown@.len() ==> #[trigger] r.shown@[k]@ == listing_labels(
                    entries@,
                )[o[k] as int],
{
    let ghost lv = listing_labels(entries@);
    let mut labels: Vec<Vec<char>> = Vec::new();
    let mut i: usize = 0;
    while i < entries.len()
        invariant
            i <= entries@.len(),
            lv == listing_labels(entries@),
            labels@.len() == i,
            forall|k: int| 0 <= k < i ==> (#[trigger] labels@[k])@ == lv[k],
        decreases entries@.len() - i,
    {
        let mut l = chars_of(entries[i].0.as_str());
        if entries[i].1 {
            l.push('/');
        }
        labels.push(l);
        i += 1;
    }
    assert(char_views(labels@) =~= lv);
    let o = order_by_text(&labels);
    let n = entries.len();
    let m = if n < LISTING_MAX {
        n
    } else {
        LISTING_MAX
    };
    let mut shown: Vec<String> = Vec::new();
    let mut k: usize = 0;
    while k < m
        invariant
            m <= n == entries@.len() == o@.len() == labels@.len(),
            k <= m,
            lv == listing_labels(entries@),
            char_views(labels@) == lv,
            is_permutation(o@, n as nat),
            shown@.len() == k,
            forall|j: int| 0 <= j < k ==> #[trigger] shown@[j]@ == lv[o@[j] as int],
        decreases m - k,
    {
        let idx = o[k];
        shown.push(string_from_chars(labels[idx].as_slice()));
        assert(char_views(labels@)[idx as int] == labels@[idx as int]@);
        k += 1;
    }
    Listing { total: n, shown }
}

/// The listing's caption.
pub fn listing_caption(total: u64) -> (r: String)
    ensures
        r@ == decimal(total as nat) + " entries"@,
{
    let mut s = String::new();
    push_decimal(&mut s, total);
    push_str(&mut s, " entries");
    s
}

} // verus!
