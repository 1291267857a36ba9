//! The decisions around file operations: which entries an action applies
//! to, what is put on the clipboard, the AppleScript that trashes files or
//! puts them on the pasteboard, new-name checks, batch renaming by
//! find/replace, where moved and renamed files land, and the messages shown
//! afterwards. The operations themselves are the caller's.

use crate::paths::{join, join_path};
use crate::undo::{pair_view, UndoAction, UndoView};
use crate::text::{
    chars_of, decimal, first_index, lemma_first_index_props, push_all, push_char, push_decimal,
    push_str, slice_range, split_once, split_once_chars, string_from_chars, trim, trim_chars,
};
use vstd::prelude::*;

verus! {

/// The pieces with `sep` between each two.
pub open spec fn joined(ps: Seq<Seq<char>>, sep: Seq<char>) -> Seq<char>
    decreases ps.len(),
{
    if ps.len() == 0 {
        seq![]
    } else if ps.len() == 1 {
        ps[0]
    } else {
        joined(ps.drop_last(), sep) + sep + ps.last()
    }
}

/// Strings by their views.
pub open spec fn views(v: Seq<String>) -> Seq<Seq<char>> {
    v.map_values(|s: String| s@)
}

/// The strings joined with `sep` (see [`joined`]).
pub fn join_strings(items: &Vec<String>, sep: &str) -> (r: String)
    ensures
        r@ == joined(views(items@), sep@),
{
    let ghost ps = views(items@);
    let mut out = String::new();
    let mut i: usize = 0;
    assert(ps.take(0) =~= Seq::<Seq<char>>::empty());
    while i < items.len()
        invariant
            i <= items@.len(),
            ps == views(items@),
            out@ == joined(ps.take(i as int), sep@),
        decreases items@.len() - i,
    {
        assert(ps.take(i + 1).drop_last() =~= ps.take(i as int));
        assert(ps.take(i + 1).last() == items@[i as int]@);
        if i > 0 {
            push_str(&mut out, sep);
        } else {
            assert(ps.take(1) =~= seq![items@[0]@]);
        }
        push_str(&mut out, items[i].as_str());
        i += 1;
    }
    assert(ps.take(items@.len() as int) =~= ps);
    out
}

/// The entries an action applies to: the marked ones, or else the current
/// one, if any.
pub open spec fn targets_spec(marked: Seq<Seq<char>>, current: Option<Seq<char>>) -> Seq<Seq<char>> {
    if marked.len() > 0 {
        marked
    } else {
        match current {
            Some(c) => seq![c],
            None => seq![],
        }
    }
}

/// The entries an action applies to (see [`targets_spec`]).
pub fn action_targets(marked: Vec<String>, current: Option<String>) -> (r: Vec<String>)
    ensures
        views(r@) == targets_spec(
            views(marked@),
            match current {
                Some(c) => Some(c@),
                None => None,
            },
        ),
{
    if marked.len() > 0 {
        return marked;
    }
    let mut out: Vec<String> = Vec::new();
    match current {
        Some(c) => {
            out.push(c);
            assert(views(out@) =~= seq![out@[0]@]);
        },
        None => {
            assert(views(out@) =~= Seq::<Seq<char>>::empty());
        },
    }
    out
}

/// `s` with every `"` escaped as `\"`.
pub open spec fn escape_quotes(s: Seq<char>) -> Seq<char>
    decreases s.len(),
{
    if s.len() == 0 {
        seq![]
    } else if s.last() == '"' {
        escape_quotes(s.drop_last()) + seq!['\\', '"']
    } else {
        escape_quotes(s.drop_last()).push(s.last())
    }
}

/// An AppleScript file reference: `POSIX file "<path>"`.
pub open spec fn posix_file(p: Seq<char>) -> Seq<char> {
    "POSIX file \""@ + escape_quotes(p) + "\""@
}

/// The file references of the paths, separated by `, `.
pub open spec fn posix_list(ps: Seq<Seq<char>>) -> Seq<char> {
    joined(ps.map_values(|p: Seq<char>| posix_file(p)), ", "@)
}

/// Appends the file reference of `p`.
fn push_posix_file(s: &mut String, p: &str)
    ensures
        final(s)@ == old(s)@ + posix_file(p@),
{
    push_str(s, "POSIX file \"");
    let v = chars_of(p);
    let ghost start = s@;
    let mut i: usize = 0;
    assert(v@.take(0) =~= Seq::<char>::empty());
    while i < v.len()
        invariant
            i <= v@.len(),
            v@ == p@,
            s@ == start + escape_quotes(v@.take(i as int)),
        decreases v@.len() - i,
    {
        assert(v@.take(i + 1).drop_last() =~= v@.take(i as int));
        assert(v@.take(i + 1).last() == v@[i as int]);
        if v[i] == '"' {
            push_char(s, '\\');
            push_char(s, '"');
        } else {
            push_char(s, v[i]);
        }
        i += 1;
    }
    assert(v@.take(v@.len() as int) =~= v@);
    push_str(s, "\"");
    assert(s@ =~= old(s)@ + posix_file(p@));
}

/// Appends the file references of `paths`, separated by `, `.
fn push_posix_list(s: &mut String, paths: &Vec<String>)
    ensures
        final(s)@ == old(s)@ + posix_list(views(paths@)),
{
    let ghost ps = views(paths@).map_values(|p: Seq<char>| posix_file(p));
    let ghost start = s@;
    let mut i: usize = 0;
    assert(ps.take(0) =~= Seq::<Seq<char>>::empty());
    while i < paths.len()
        invariant
            i <= paths@.len(),
            ps == views(paths@).map_values(|p: Seq<char>| posix_file(p)),
            s@ == start + joined(ps.take(i as int), ", "@),
        decreases paths@.len() - i,
    {
        assert(ps.take(i + 1).drop_last() =~= ps.take(i as int));
        assert(ps.take(i + 1).last() == posix_file(paths@[i as int]@));
        if i > 0 {
            push_str(s, ", ");
        } else {
            assert(ps.take(1) =~= seq![posix_file(paths@[0]@)]);
        }
        push_posix_file(s, paths[i].as_str());
        i += 1;
    }
    assert(ps.take(paths@.len() as int) =~= ps);
}

/// The script that puts the files on the pasteboard, none for no files.
pub open spec fn clipboard_script_spec(ps: Seq<Seq<char>>) -> Option<Seq<char>> {
    if ps.len() == 0 {
        None
    } else {
        Some("set the clipboard to {"@ + posix_list(ps) + "}"@)
    }
}

/// The AppleScript that puts the files themselves on the pasteboard (see
/// [`clipboard_script_spec`]).
pub fn clipboard_script(paths: &Vec<String>) -> (r: Option<String>)
    ensures
        r matches Some(s) ==> clipboard_script_spec(views(paths@)) == Some(s@),
        r is None ==> clipboard_script_spec(views(paths@)) is None,
{
    if paths.len() == 0 {
        return None;
    }
    let mut s = String::new();
    push_str(&mut s, "set the clipboard to {");
    push_posix_list(&mut s, paths);
    push_str(&mut s, "}");
    assert(s@ =~= "set the clipboard to {"@ + posix_list(views(paths@)) + "}"@);
    Some(s)
}

/// The AppleScript that has Finder move the files to the trash.
pub open spec fn trash_script_spec(ps: Seq<Seq<char>>) -> Seq<char> {
    "tell application \"Finder\" to delete { "@ + posix_list(ps) + " }"@
}

/// The AppleScript that trashes the files (see [`trash_script_spec`]).
pub fn trash_script(paths: &Vec<String>) -> (r: String)
    ensures
        r@ == trash_script_spec(views(paths@)),
{
    let mut s = String::new();
    push_str(&mut s, "tell application \"Finder\" to delete { ");
    push_posix_list(&mut s, paths);
    push_str(&mut s, " }");
    assert(s@ =~= trash_script_spec(views(paths@)));
    s
}

/// `n` and the noun, plural unless `n` is 1: `1 name`, `3 names`.
pub open spec fn counted(n: nat, noun: Seq<char>) -> Seq<char> {
    decimal(n) + " "@ + noun + (if n == 1 {
        ""@
    } else {
        "s"@
    })
}

/// Appends [`counted`].
pub(crate) fn push_counted(s: &mut String, n: u64, noun: &str)
    ensures
        final(s)@ == old(s)@ + counted(n as nat, noun@),
{
    push_decimal(s, n);
    push_str(s, " ");
    push_str(s, noun);
    if n == 1 {
        push_str(s, "");
    } else {
        push_str(s, "s");
    }
    assert(s@ =~= old(s)@ + counted(n as nat, noun@));
}

/// What a copy puts on the clipboard and the message it shows, and the
/// AppleScript that also puts the files themselves on the pasteboard, when
/// the copy does that.
pub struct Copied {
    pub payload: String,
    pub message: String,
    pub files: Option<String>,
}

/// An optional text by its view.
pub open spec fn opt_view(o: Option<String>) -> Option<Seq<char>> {
    match o {
        Some(t) => Some(t@),
        None => None,
    }
}

/// The last component of a path as text (`Path::file_name`); `None` when
/// the path ends in `..` or has no component.
pub uninterp spec fn path_file_name(p: Seq<char>) -> Option<Seq<char>>;

/// `Path::file_name`, as text.
#[verifier::external_body]
pub(crate) fn file_name_of(p: &str) -> (r: Option<String>)
    ensures
        r matches Some(n) ==> path_file_name(p@) == Some(n@),
        r is None ==> path_file_name(p@) is None,
{
    std::path::Path::new(p).file_name().map(|n| n.to_string_lossy().into_owned())
}

/// The names of the paths that have one, in order.
pub open spec fn file_names(ps: Seq<Seq<char>>) -> Seq<Seq<char>>
    decreases ps.len(),
{
    if ps.len() == 0 {
        seq![]
    } else {
        match path_file_name(ps.last()) {
            Some(n) => file_names(ps.drop_last()).push(n),
            None => file_names(ps.drop_last()),
        }
    }
}

/// Copying names: the file names of the targets, one per line, and
/// `Copied <n> name(s)` for the number of targets; nothing without targets.
pub open spec fn copy_names_spec(targets: Seq<Seq<char>>) -> Option<(Seq<char>, Seq<char>)> {
    if targets.len() == 0 {
        None
    } else {
        Some((joined(file_names(targets), "\n"@), "Copied "@ + counted(targets.len(), "name"@)))
    }
}

/// What copying the names of the marked entries, or else of the current
/// one, does (see [`copy_names_spec`]).
pub fn copy_names(marked: Vec<String>, current: Option<String>) -> (r: Option<Copied>)
    ensures
        match r {
            Some(c) => copy_names_spec(
                targets_spec(
                    views(marked@),
                    match current {
                        Some(p) => Some(p@),
                        None => None,
                    },
                ),
            ) == Some((c.payload@, c.message@)),
            None => copy_names_spec(
                targets_spec(
                    views(marked@),
                    match current {
                        Some(p) => Some(p@),
                        None => None,
                    },
                ),
            ) is None,
        },
{
    let targets = action_targets(marked, current);
    let n = targets.len();
    if n == 0 {
        return None;
    }
    let ghost tv = views(targets@);
    let mut names: Vec<String> = Vec::new();
    let mut i: usize = 0;
    assert(tv.take(0) =~= Seq::<Seq<char>>::empty());
    while i < n
        invariant
            n == targets@.len(),
            i <= n,
            tv == views(targets@),
            views(names@) == file_names(tv.take(i as int)),
        decreases n - i,
    {
        assert(tv.take(i + 1).drop_last() =~= tv.take(i as int));
        assert(tv.take(i + 1).last() == targets@[i as int]@);
        match file_name_of(targets[i].as_str()) {
            Some(name) => {
                let ghost before = views(names@);
                names.push(name);
                assert(views(names@) =~= before.push(names@[names@.len() - 1]@));
            },
            None => {},
        }
        i += 1;
    }
    assert(tv.take(n as int) =~= tv);
    let payload = join_strings(&names, "\n");
    let mut message = String::new();
    push_str(&mut message, "Copied ");
    push_counted(&mut message, n as u64, "name");
    assert(message@ =~= "Copied "@ + counted(tv.len(), "name"@));
    Some(Copied { payload, message, files: None })
}

/// Copying paths: the marked paths, one per line, or else the current one;
/// the message counts the marked paths, at least one.
pub open spec fn copy_paths_spec(marked: Seq<Seq<char>>, current: Option<Seq<char>>) -> Option<
    (Seq<char>, Seq<char>),
> {
    let n: nat = if marked.len() > 0 {
        marked.len()
    } else {
        1
    };
    if marked.len() > 0 {
        Some((joined(marked, "\n"@), "Copied "@ + counted(n, "path"@)))
    } else {
        match current {
            Some(c) => Some((c, "Copied "@ + counted(n, "path"@))),
            None => None,
        }
    }
}

/// What copying the marked paths, or else the current one, does (see
/// [`copy_paths_spec`]).
pub fn copy_paths(marked: &Vec<String>, current: Option<String>) -> (r: Option<Copied>)
    ensures
        match r {
            Some(c) => copy_paths_spec(
                views(marked@),
                match current {
                    Some(p) => Some(p@),
                    None => None,
                },
            ) == Some((c.payload@, c.message@)) && opt_view(c.files) == clipboard_script_spec(
                targets_spec(
                    views(marked@),
                    match current {
                        Some(p) => Some(p@),
                        None => None,
                    },
                ),
            ),
            None => copy_paths_spec(
                views(marked@),
                match current {
                    Some(p) => Some(p@),
                    None => None,
                },
            ) is None,
        },
{
    let (payload, files) = if marked.len() > 0 {
        (join_strings(marked, "\n"), clipboard_script(marked))
    } else {
        match current {
            Some(c) => {
                let one = vec![c];
                assert(views(one@) =~= seq![one@[0]@]);
                let script = clipboard_script(&one);
                (one[0].clone(), script)
            },
            None => {
                return None;
            },
        }
    };
    let n: u64 = if marked.len() > 0 {
        marked.len() as u64
    } else {
        1
    };
    let mut message = String::new();
    push_str(&mut message, "Copied ");
    push_counted(&mut message, n, "path");
    assert(message@ =~= "Copied "@ + counted(n as nat, "path"@));
    Some(Copied { payload, message, files })
}

/// The message after trashing `n` entries.
pub fn trashed_message(n: u64) -> (r: String)
    ensures
        r@ == "Trashed "@ + decimal(n as nat),
{
    let mut s = String::new();
    push_str(&mut s, "Trashed ");
    push_decimal(&mut s, n);
    s
}

/// `<verb> <ok>`, and ` · <fail> failed` when some failed.
pub open spec fn tally_spec(verb: Seq<char>, ok: nat, fail: nat) -> Seq<char> {
    if fail == 0 {
        verb + " "@ + decimal(ok)
    } else {
        verb + " "@ + decimal(ok) + " · "@ + decimal(fail) + " failed"@
    }
}

/// The message after a batch of renames or moves (see [`tally_spec`]).
pub fn tally_message(verb: &str, ok: u64, fail: u64) -> (r: String)
    ensures
        r@ == tally_spec(verb@, ok as nat, fail as nat),
{
    let mut s = String::new();
    push_str(&mut s, verb);
    push_str(&mut s, " ");
    push_decimal(&mut s, ok);
    if fail != 0 {
        push_str(&mut s, " · ");
        push_decimal(&mut s, fail);
        push_str(&mut s, " failed");
    }
    assert(s@ =~= tally_spec(verb@, ok as nat, fail as nat));
    s
}

/// The message after undoing a move: how many files went back and how many
/// did not.
pub open spec fn undo_move_spec(ok: nat, fail: nat) -> Seq<char> {
    if fail == 0 {
        "Undid move ("@ + decimal(ok) + ")"@
    } else {
        "Undo move: "@ + decimal(ok) + " ok · "@ + decimal(fail) + " failed"@
    }
}

/// The message after undoing a move (see [`undo_move_spec`]).
pub fn undo_move_message(ok: u64, fail: u64) -> (r: String)
    ensures
        r@ == undo_move_spec(ok as nat, fail as nat),
{
    let mut s = String::new();
    if fail == 0 {
        push_str(&mut s, "Undid move (");
        push_decimal(&mut s, ok);
        push_str(&mut s, ")");
    } else {
        push_str(&mut s, "Undo move: ");
        push_decimal(&mut s, ok);
        push_str(&mut s, " ok · ");
        push_decimal(&mut s, fail);
        push_str(&mut s, " failed");
    }
    assert(s@ =~= undo_move_spec(ok as nat, fail as nat));
    s
}

/// The message for a trash that cannot be undone here.
pub fn undo_trash_message(count: u64) -> (r: String)
    ensures
        r@ == "Trash can't be undone here — press ⌘⇧Z in Finder ("@ + counted(
            count as nat,
            "item"@,
        ) + ")"@,
{
    let mut s = String::new();
    push_str(&mut s, "Trash can't be undone here — press ⌘⇧Z in Finder (");
    push_counted(&mut s, count, "item");
    push_str(&mut s, ")");
    assert(s@ =~= "Trash can't be undone here — press ⌘⇧Z in Finder ("@ + counted(
        count as nat,
        "item"@,
    ) + ")"@);
    s
}

/// A typed name for a new or renamed entry: the trimmed text, unless it is
/// empty or holds a `/`.
pub open spec fn new_name_spec(input: Seq<char>) -> Option<Seq<char>> {
    let t = trim(input);
    if t.len() == 0 || t.contains('/') {
        None
    } else {
        Some(t)
    }
}

/// The name typed for a new or renamed entry (see [`new_name_spec`]);
/// `None` is shown as "Invalid name".
pub fn valid_new_name(input: &str) -> (r: Option<String>)
    ensures
        r matches Some(n) ==> new_name_spec(input@) == Some(n@),
        r is None ==> new_name_spec(input@) is None,
{
    let v = chars_of(input);
    let t = trim_chars(v.as_slice());
    if t.len() == 0 {
        return None;
    }
    let mut i: usize = 0;
    while i < t.len()
        invariant
            t@ == trim(input@),
            i <= t@.len(),
            forall|j: int| 0 <= j < i ==> t@[j] != '/',
        decreases t@.len() - i,
    {
        if t[i] == '/' {
            assert(t@.contains('/')) by {
                assert(t@[i as int] == '/');
            }
            return None;
        }
        i += 1;
    }
    assert(!t@.contains('/'));
    Some(string_from_chars(t.as_slice()))
}

/// Where the caret starts when renaming: before the last `.` of the name's
/// bytes, or at the end when it has none.
pub open spec fn rename_caret_spec(b: Seq<u8>) -> int
    decreases b.len(),
{
    if b.len() == 0 {
        0
    } else if b.last() == 46 {
        b.len() - 1
    } else if rename_caret_spec(b.drop_last()) < b.len() - 1 {
        rename_caret_spec(b.drop_last())
    } else {
        b.len() as int
    }
}

/// The byte offset of the last `.` in `b`, if any.
pub open spec fn last_dot(b: Seq<u8>) -> Option<int>
    decreases b.len(),
{
    if b.len() == 0 {
        None
    } else if b.last() == 46 {
        Some(b.len() - 1)
    } else {
        last_dot(b.drop_last())
    }
}

/// The caret's starting offset in a name being renamed: at its last `.`,
/// else at its end (`rfind('.')`).
pub fn rename_caret(name: &str) -> (r: usize)
    ensures
        r == (match last_dot(crate::edit::utf8(name@)) {
            Some(i) => i,
            None => crate::edit::utf8(name@).len() as int,
        }),
{
    let b = name.as_bytes();
    let n = b.len();
    let mut i: usize = n;
    assert(b@.take(n as int) =~= b@);
    while i > 0 && b[i - 1] != 46
        invariant
            i <= n == b@.len(),
            b@ == crate::edit::utf8(name@),
            last_dot(b@) == last_dot(b@.take(i as int)),
        decreases i,
    {
        assert(b@.take(i as int).drop_last() =~= b@.take(i - 1));
        i -= 1;
    }
    if i == 0 {
        assert(b@.take(0) =~= Seq::<u8>::empty());
        n
    } else {
        i - 1
    }
}

/// Why a batch rename's text was refused.
#[derive(PartialEq, Eq, Structural, Clone, Copy, Debug)]
pub enum BatchInputError {
    /// No `/` between the text to find and its replacement.
    NoSlash,
    /// Nothing before the `/`.
    EmptyFind,
}

impl BatchInputError {
    /// The message shown for the refusal.
    pub fn message(self) -> (r: &'static str)
        ensures
            r@ == (match self {
                BatchInputError::NoSlash => "Use `find/replace` format"@,
                BatchInputError::EmptyFind => "`find` is empty"@,
            }),
    {
        match self {
            BatchInputError::NoSlash => "Use `find/replace` format",
            BatchInputError::EmptyFind => "`find` is empty",
        }
    }
}

/// A batch rename's text: the trimmed text split at its first `/` into
/// what to find and what to put instead.
pub open spec fn batch_input_spec(raw: Seq<char>) -> Result<(Seq<char>, Seq<char>), BatchInputError> {
    match split_once(trim(raw), '/') {
        None => Err(BatchInputError::NoSlash),
        Some((find, replace)) => if find.len() == 0 {
            Err(BatchInputError::EmptyFind)
        } else {
            Ok((find, replace))
        },
    }
}

/// Reads a batch rename's `find/replace` text (see [`batch_input_spec`]).
pub fn parse_batch_input(raw: &str) -> (r: Result<(String, String), BatchInputError>)
    ensures
        match r {
            Ok((f, p)) => batch_input_spec(raw@) == Ok::<(Seq<char>, Seq<char>), BatchInputError>(
                (f@, p@),
            ),
            Err(e) => batch_input_spec(raw@) == Err::<(Seq<char>, Seq<char>), BatchInputError>(e),
        },
{
    let v = chars_of(raw);
    let t = trim_chars(v.as_slice());
    match split_once_chars(t.as_slice(), '/') {
        None => Err(BatchInputError::NoSlash),
        Some((find, replace)) => {
            if find.len() == 0 {
                Err(BatchInputError::EmptyFind)
            } else {
                Ok((string_from_chars(find.as_slice()), string_from_chars(replace.as_slice())))
            }
        },
    }
}

/// Every occurrence of `find` in `s`, from the left and without overlap,
/// replaced by `rep` (`str::replacen` with no limit that matters).
pub open spec fn replace_all(s: Seq<char>, find: Seq<char>, rep: Seq<char>) -> Seq<char>
    decreases s.len(),
{
    if find.len() == 0 || s.len() < find.len() {
        s
    } else if s.take(find.len() as int) == find {
        rep + replace_all(s.skip(find.len() as int), find, rep)
    } else {
        seq![s[0]] + replace_all(s.skip(1), find, rep)
    }
}

/// `s[i..]` starts with `find`.
fn occurs_at(s: &[char], i: usize, find: &[char]) -> (r: bool)
    requires
        i <= s@.len(),
    ensures
        r == (s@.len() - i >= find@.len() && s@.skip(i as int).take(find@.len() as int) == find@),
{
    let n = s.len();
    if n - i < find.len() {
        return false;
    }
    let mut j: usize = 0;
    while j < find.len()
        invariant
            n == s@.len(),
            i + find@.len() <= s@.len(),
            j <= find@.len(),
            forall|k: int| 0 <= k < j ==> s@[i + k] == find@[k],
        decreases find@.len() - j,
    {
        if s[i + j] != find[j] {
            assert(s@.skip(i as int).take(find@.len() as int)[j as int] != find@[j as int]);
            return false;
        }
        j += 1;
    }
    assert(s@.skip(i as int).take(find@.len() as int) =~= find@);
    true
}

/// `name` with every `find` replaced by `rep` (see [`replace_all`]).
pub fn replace_all_chars(name: &[char], find: &[char], rep: &[char]) -> (r: Vec<char>)
    requires
        find@.len() > 0,
    ensures
        r@ == replace_all(name@, find@, rep@),
{
    let mut out: Vec<char> = Vec::new();
    let mut i: usize = 0;
    assert(name@.skip(0) =~= name@);
    assert(out@ + replace_all(name@, find@, rep@) =~= replace_all(name@, find@, rep@));
    while i < name.len()
        invariant
            i <= name@.len(),
            find@.len() > 0,
            replace_all(name@, find@, rep@) == out@ + replace_all(
                name@.skip(i as int),
                find@,
                rep@,
            ),
        decreases name@.len() - i,
    {
        let ghost rest = name@.skip(i as int);
        if occurs_at(name, i, find) {
            let ghost before = out@;
            let mut j: usize = 0;
            while j < rep.len()
                invariant
                    j <= rep@.len(),
                    out@ == before + rep@.take(j as int),
                decreases rep@.len() - j,
            {
                out.push(rep[j]);
                assert(before + rep@.take(j as int) + seq![rep@[j as int]] =~= before + rep@.take(
                    j + 1,
                ));
                j += 1;
            }
            assert(rep@.take(rep@.len() as int) =~= rep@);
            assert(rest.skip(find@.len() as int) =~= name@.skip(i + find@.len()));
            assert(before + (rep@ + replace_all(rest.skip(find@.len() as int), find@, rep@))
                =~= out@ + replace_all(name@.skip(i + find@.len()), find@, rep@));
            i = i + find.len();
        } else {
            let ghost before = out@;
            out.push(name[i]);
            if name.len() - i >= find.len() {
                assert(rest.skip(1) =~= name@.skip(i + 1));
                assert(rest[0] == name@[i as int]);
                assert(before + (seq![rest[0]] + replace_all(rest.skip(1), find@, rep@))
                    =~= out@ + replace_all(name@.skip(i + 1), find@, rep@));
            } else {
                proof {
                    lemma_replace_all_short(name@.skip(i as int), find@, rep@);
                    lemma_replace_all_short(name@.skip(i + 1), find@, rep@);
                    assert(rest =~= seq![name@[i as int]] + name@.skip(i + 1));
                }
            }
            i += 1;
        }
    }
    assert(name@.skip(i as int) =~= Seq::<char>::empty());
    assert(out@ + Seq::<char>::empty() =~= out@);
    out
}

proof fn lemma_replace_all_short(s: Seq<char>, find: Seq<char>, rep: Seq<char>)
    requires
        s.len() < find.len(),
    ensures
        replace_all(s, find, rep) == s,
{
}

/// A batch rename's new name for `name`: `None` when the replacement
/// leaves it as it was.
pub open spec fn batch_new_name(name: Seq<char>, find: Seq<char>, rep: Seq<char>) -> Option<Seq<char>> {
    let n = replace_all(name, find, rep);
    if n == name {
        None
    } else {
        Some(n)
    }
}

/// The name a batch rename gives `name` (see [`batch_new_name`]).
pub fn batch_rename(name: &str, find: &str, rep: &str) -> (r: Option<String>)
    requires
        find@.len() > 0,
    ensures
        r matches Some(n) ==> batch_new_name(name@, find@, rep@) == Some(n@),
        r is None ==> batch_new_name(name@, find@, rep@) is None,
{
    let nv = chars_of(name);
    let fv = chars_of(find);
    let rv = chars_of(rep);
    let out = replace_all_chars(nv.as_slice(), fv.as_slice(), rv.as_slice());
    if crate::text::chars_eq(out.as_slice(), nv.as_slice()) {
        None
    } else {
        Some(string_from_chars(out.as_slice()))
    }
}

/// The path `p` with its last component replaced by `name`
/// (`PathBuf::with_file_name`), as text.
pub uninterp spec fn path_with_file_name(p: Seq<char>, name: Seq<char>) -> Seq<char>;

/// `Path::with_file_name`, as text.
#[verifier::external_body]
fn with_file_name(p: &str, name: &str) -> (r: String)
    ensures
        r@ == path_with_file_name(p@, name@),
{
    std::path::Path::new(p).with_file_name(name).to_string_lossy().into_owned()
}

/// Where a renamed entry goes: the same directory, the new name.
pub fn rename_target(p: &str, new_name: &str) -> (r: String)
    ensures
        r@ == path_with_file_name(p@, new_name@),
{
    with_file_name(p, new_name)
}

/// What a batch rename or a paste does with one path.
pub enum MoveStep {
    /// The path stays: its new name is its name.
    Skip,
    /// The path has no name: it counts as a failure.
    Fail,
    /// The path moves to this target.
    Move(String),
}

/// What a batch rename does with `p`: it fails without a name, stays when
/// the name is unchanged, else moves to the new name in the same folder.
pub fn batch_step(p: &str, find: &str, rep: &str) -> (r: MoveStep)
    requires
        find@.len() > 0,
    ensures
        match path_file_name(p@) {
            None => r is Fail,
            Some(n) => match batch_new_name(n, find@, rep@) {
                None => r is Skip,
                Some(m) => r matches MoveStep::Move(t) && t@ == path_with_file_name(p@, m),
            },
        },
{
    match file_name_of(p) {
        Some(name) => match batch_rename(name.as_str(), find, rep) {
            Some(new_name) => MoveStep::Move(with_file_name(p, new_name.as_str())),
            None => MoveStep::Skip,
        },
        None => MoveStep::Fail,
    }
}

/// The folder new entries and pasted files go to: the current entry when it
/// is a folder, else the root.
pub fn destination_dir(current_is_dir: bool, current: Option<String>, root: String) -> (r: String)
    ensures
        r@ == (if current_is_dir {
            match current {
                Some(c) => c@,
                None => root@,
            }
        } else {
            root@
        }),
{
    if current_is_dir {
        match current {
            Some(c) => c,
            None => root,
        }
    } else {
        root
    }
}

/// What pasting `src` into `dest` does: it fails without a name, else moves
/// under `dest` with its name.
pub fn paste_step(dest: &str, src: &str) -> (r: MoveStep)
    ensures
        match path_file_name(src@) {
            None => r is Fail,
            Some(n) => r matches MoveStep::Move(t) && t@ == join_path(dest@, n),
        },
{
    match file_name_of(src) {
        Some(name) => MoveStep::Move(join(dest, name.as_str())),
        None => MoveStep::Fail,
    }
}

/// The tally of a run of moves: how many went through, how many failed,
/// and the moves made, in order, for undoing them.
pub struct MoveRun {
    pub ok: u64,
    pub fail: u64,
    pub pairs: Vec<(String, String)>,
}

impl MoveRun {
    /// Nothing moved yet.
    pub fn new() -> (r: MoveRun)
        ensures
            r.ok == 0,
            r.fail == 0,
            r.pairs@.len() == 0,
    {
        MoveRun { ok: 0, fail: 0, pairs: Vec::new() }
    }

    /// `src` moved to `dst`.
    pub fn moved(&mut self, src: String, dst: String)
        requires
            old(self).ok < u64::MAX,
        ensures
            final(self).ok == old(self).ok + 1,
            final(self).fail == old(self).fail,
            final(self).pairs@ == old(self).pairs@.push((src, dst)),
    {
        self.ok = self.ok + 1;
        self.pairs.push((src, dst));
    }

    /// A move failed.
    pub fn failed(&mut self)
        requires
            old(self).fail < u64::MAX,
        ensures
            final(self).ok == old(self).ok,
            final(self).fail == old(self).fail + 1,
            final(self).pairs@ == old(self).pairs@,
    {
        self.fail = self.fail + 1;
    }

    /// The message for the run, under `verb` (see [`tally_spec`]), and the
    /// undo entry that records the moves made, if any.
    pub fn finish(self, verb: &str) -> (r: (String, Option<UndoAction>))
        ensures
            r.0@ == tally_spec(verb@, self.ok as nat, self.fail as nat),
            match r.1 {
                Some(a) => self.pairs@.len() > 0 && a@ == (UndoView::Move {
                    pairs: self.pairs@.map_values(|p: (String, String)| pair_view(p)),
                }),
                None => self.pairs@.len() == 0,
            },
    {
        let msg = tally_message(verb, self.ok, self.fail);
        if self.pairs.len() == 0 {
            (msg, None)
        } else {
            let a = UndoAction::Move { pairs: self.pairs };
            (msg, Some(a))
        }
    }
}

} // verus!
