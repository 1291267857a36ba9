//! The explorer's modes and the text fields of its overlays: the path bar,
//! rename, batch rename and create. Opening an overlay fills its field and
//! puts the caret at the end (a rename's caret before the extension);
//! closing one empties its field.

use crate::edit::utf8;
use crate::fileops::{file_name_of, last_dot, path_file_name, rename_caret};
use vstd::prelude::*;

verus! {

/// What the keyboard drives.
#[derive(Clone, Copy, PartialEq, Eq, Structural, Debug)]
pub enum Mode {
    Search,
    PathBar,
    Settings,
    Rename,
    Create,
    BatchRename,
}

/// What a create overlay makes.
#[derive(Clone, Copy, PartialEq, Eq, Structural, Debug)]
pub enum CreateKind {
    Folder,
    File,
}

/// A text field: its text, the caret's byte offset and the selection's
/// other end.
pub struct Field {
    pub text: String,
    pub cursor: usize,
    pub anchor: Option<usize>,
}

/// The mode and the overlays' fields.
pub struct Overlays {
    pub mode: Mode,
    pub create_kind: CreateKind,
    pub rename: Field,
    pub batch: Field,
    pub create: Field,
    pub path: Field,
}

/// A field holding `text` with the caret at its end; the selection's
/// other end stays where it was.
pub open spec fn filled(f: Field, text: Seq<char>, fresh: Field) -> bool {
    &&& fresh.text@ == text
    &&& fresh.cursor == utf8(text).len()
    &&& fresh.anchor == f.anchor
}

/// A field emptied; caret and selection end stay where they were.
pub open spec fn emptied(f: Field, fresh: Field) -> bool {
    &&& fresh.text@ == Seq::<char>::empty()
    &&& fresh.cursor == f.cursor
    &&& fresh.anchor == f.anchor
}

/// The same field.
pub open spec fn same_field(f: Field, g: Field) -> bool {
    f.text@ == g.text@ && f.cursor == g.cursor && f.anchor == g.anchor
}

/// The text a create overlay opens with.
pub open spec fn create_default(kind: CreateKind) -> Seq<char> {
    match kind {
        CreateKind::Folder => "Untitled folder"@,
        CreateKind::File => "untitled.txt"@,
    }
}

/// The text a batch rename overlay opens with.
pub open spec fn batch_default() -> Seq<char> {
    "find/replace"@
}

fn empty_field() -> (r: Field)
    ensures
        r.text@ == Seq::<char>::empty(),
        r.cursor == 0,
        r.anchor is None,
{
    Field { text: String::new(), cursor: 0, anchor: None }
}

impl Field {
    /// Holds `text`, the caret at its end.
    fn fill(&mut self, text: String)
        ensures
            filled(*old(self), text@, *final(self)),
    {
        self.cursor = text.as_str().as_bytes().len();
        self.text = text;
    }

    /// Holds nothing.
    fn empty(&mut self)
        ensures
            emptied(*old(self), *final(self)),
    {
        self.text = String::new();
    }
}

impl Overlays {
    /// Searching, every field empty, a new entry being a folder.
    pub fn new() -> (r: Overlays)
        ensures
            r.mode == Mode::Search,
            r.create_kind == CreateKind::Folder,
            r.rename.text@.len() == 0 && r.rename.cursor == 0 && r.rename.anchor is None,
            r.batch.text@.len() == 0 && r.batch.cursor == 0 && r.batch.anchor is None,
            r.create.text@.len() == 0 && r.create.cursor == 0 && r.create.anchor is None,
            r.path.text@.len() == 0 && r.path.cursor == 0 && r.path.anchor is None,
    {
        Overlays {
            mode: Mode::Search,
            create_kind: CreateKind::Folder,
            rename: empty_field(),
            batch: empty_field(),
            create: empty_field(),
            path: empty_field(),
        }
    }

    /// Opens the path bar on `root`.
    pub fn enter_path_bar(&mut self, root: String)
        ensures
            final(self).mode == Mode::PathBar,
            filled(old(self).path, root@, final(self).path),
            final(self).create_kind == old(self).create_kind,
            same_field(final(self).rename, old(self).rename),
            same_field(final(self).batch, old(self).batch),
            same_field(final(self).create, old(self).create),
    {
        self.mode = Mode::PathBar;
        self.path.fill(root);
    }

    /// Opens the settings.
    pub fn open_settings(&mut self)
        ensures
            final(self).mode == Mode::Settings,
            final(self).create_kind == old(self).create_kind,
            same_field(final(self).rename, old(self).rename),
            same_field(final(self).batch, old(self).batch),
            same_field(final(self).create, old(self).create),
            same_field(final(self).path, old(self).path),
    {
        self.mode = Mode::Settings;
    }

    /// Opens the create overlay for `kind`, with its default name.
    pub fn start_create(&mut self, kind: CreateKind)
        ensures
            final(self).mode == Mode::Create,
            final(self).create_kind == kind,
            filled(old(self).create, create_default(kind), final(self).create),
            same_field(final(self).rename, old(self).rename),
            same_field(final(self).batch, old(self).batch),
            same_field(final(self).path, old(self).path),
    {
        self.create_kind = kind;
        let text = match kind {
            CreateKind::Folder => "Untitled folder".to_string(),
            CreateKind::File => "untitled.txt".to_string(),
        };
        self.create.fill(text);
        self.mode = Mode::Create;
    }

    /// Opens the batch rename overlay, when rows are marked; otherwise
    /// changes nothing and returns `false` (the caller says that nothing is
    /// marked).
    pub fn start_batch_rename(&mut self, any_marked: bool) -> (r: bool)
        ensures
            r == any_marked,
            r ==> final(self).mode == Mode::BatchRename && filled(
                old(self).batch,
                batch_default(),
                final(self).batch,
            ),
            !r ==> final(self).mode == old(self).mode && same_field(final(self).batch, old(self).batch),
            final(self).create_kind == old(self).create_kind,
            same_field(final(self).rename, old(self).rename),
            same_field(final(self).create, old(self).create),
            same_field(final(self).path, old(self).path),
    {
        if !any_marked {
            return false;
        }
        self.batch.fill("find/replace".to_string());
        self.mode = Mode::BatchRename;
        true
    }

    /// Opens the rename overlay on the selected path, holding its name with
    /// the caret before its last `.` (at the end when it has none); with no
    /// selected path, changes nothing and returns `false`.
    pub fn start_rename(&mut self, current: Option<&str>) -> (r: bool)
        ensures
            r == current is Some,
            match current {
                Some(p) => {
                    let name = match path_file_name(p@) {
                        Some(n) => n,
                        None => Seq::<char>::empty(),
                    };
                    &&& final(self).mode == Mode::Rename
                    &&& final(self).rename.text@ == name
                    &&& final(self).rename.cursor == (match last_dot(utf8(name)) {
                        Some(i) => i,
                        None => utf8(name).len() as int,
                    })
                    &&& final(self).rename.anchor == old(self).rename.anchor
                },
                None => final(self).mode == old(self).mode && same_field(
                    final(self).rename,
                    old(self).rename,
                ),
            },
            final(self).create_kind == old(self).create_kind,
            same_field(final(self).batch, old(self).batch),
            same_field(final(self).create, old(self).create),
            same_field(final(self).path, old(self).path),
    {
        let p = match current {
            Some(p) => p,
            None => return false,
        };
        let name = match file_name_of(p) {
            Some(n) => n,
            None => String::new(),
        };
        self.rename.cursor = rename_caret(name.as_str());
        self.rename.text = name;
        self.mode = Mode::Rename;
        true
    }

    /// Back to searching from the path bar or the settings; the path bar
    /// empties.
    pub fn close_overlay(&mut self)
        ensures
            final(self).mode == Mode::Search,
            emptied(old(self).path, final(self).path),
            final(self).create_kind == old(self).create_kind,
            same_field(final(self).rename, old(self).rename),
            same_field(final(self).batch, old(self).batch),
            same_field(final(self).create, old(self).create),
    {
        self.mode = Mode::Search;
        self.path.empty();
    }

    /// Gives up the open overlay: back to searching, its field emptied;
    /// in another mode nothing changes.
    pub fn cancel(&mut self)
        ensures
            match old(self).mode {
                Mode::PathBar => final(self).mode == Mode::Search && emptied(old(self).path, final(self).path),
                Mode::Create => final(self).mode == Mode::Search && emptied(old(self).create, final(self).create),
                Mode::BatchRename => final(self).mode == Mode::Search && emptied(
                    old(self).batch,
                    final(self).batch,
                ),
                Mode::Rename => final(self).mode == Mode::Search && emptied(old(self).rename, final(self).rename),
                _ => final(self).mode == old(self).mode,
            },
            old(self).mode != Mode::PathBar ==> same_field(final(self).path, old(self).path),
            old(self).mode != Mode::Create ==> same_field(final(self).create, old(self).create),
            old(self).mode != Mode::BatchRename ==> same_field(final(self).batch, old(self).batch),
            old(self).mode != Mode::Rename ==> same_field(final(self).rename, old(self).rename),
            final(self).create_kind == old(self).create_kind,
    {
        match self.mode {
            Mode::PathBar => self.close_overlay(),
            Mode::Create => self.close_create(),
            Mode::BatchRename => self.close_batch_rename(),
            Mode::Rename => self.close_rename(),
            _ => {},
        }
    }

    /// Back to searching from a rename, done or given up; its field
    /// empties.
    pub fn close_rename(&mut self)
        ensures
            final(self).mode == Mode::Search,
            emptied(old(self).rename, final(self).rename),
            final(self).create_kind == old(self).create_kind,
            same_field(final(self).batch, old(self).batch),
            same_field(final(self).create, old(self).create),
            same_field(final(self).path, old(self).path),
    {
        self.mode = Mode::Search;
        self.rename.empty();
    }

    /// Back to searching from a create, done or given up; its field
    /// empties.
    pub fn close_create(&mut self)
        ensures
            final(self).mode == Mode::Search,
            emptied(old(self).create, final(self).create),
            final(self).create_kind == old(self).create_kind,
            same_field(final(self).rename, old(self).rename),
            same_field(final(self).batch, old(self).batch),
            same_field(final(self).path, old(self).path),
    {
        self.mode = Mode::Search;
        self.create.empty();
    }

    /// Back to searching from a batch rename, done or given up; its field
    /// empties.
    pub fn close_batch_rename(&mut self)
        ensures
            final(self).mode == Mode::Search,
            emptied(old(self).batch, final(self).batch),
            final(self).create_kind == old(self).create_kind,
            same_field(final(self).rename, old(self).rename),
            same_field(final(self).create, old(self).create),
            same_field(final(self).path, old(self).path),
    {
        self.mode = Mode::Search;
        self.batch.empty();
    }
}

/// The message after creating an entry of `kind`.
pub fn created_message(kind: CreateKind) -> (r: &'static str)
    ensures
        r@ == (match kind {
            CreateKind::Folder => "Created folder"@,
            CreateKind::File => "Created file"@,
        }),
{
    match kind {
        CreateKind::Folder => "Created folder",
        CreateKind::File => "Created file",
    }
}

/// The create overlay's title.
pub fn create_title(kind: CreateKind) -> (r: &'static str)
    ensures
        r@ == (match kind {
            CreateKind::Folder => "NEW FOLDER"@,
            CreateKind::File => "NEW FILE"@,
        }),
{
    match kind {
        CreateKind::Folder => "NEW FOLDER",
        CreateKind::File => "NEW FILE",
    }
}

} // verus!
