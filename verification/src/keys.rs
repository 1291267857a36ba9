//! The explorer's keyboard: which command a key press stands for, given the
//! mode, whether the context menu is open and whether the query is empty.
//! An open overlay takes the keys first, `Esc` closing it; then the
//! context menu, which `Esc` closes; a plain `Esc` otherwise quits. Then
//! `F2`, the command-key chords, the control-key chords and the plain
//! keys; a key that types text extends the query.

use crate::edit::{has_no_control, no_control, KeyStroke};
use crate::overlay::{CreateKind, Mode};
use crate::text::{chars_of, push_str, str_is, string_from_range};
use vstd::prelude::*;

verus! {

/// How many rows a page of the result list holds.
pub const VIEWPORT_ROWS: i32 = 80;

/// What a key press asks the explorer to do.
#[derive(Clone, Copy, PartialEq, Eq, Structural, Debug)]
pub enum Command {
    /// Nothing.
    Ignore,
    /// Quits the application.
    Quit,
    /// The key edits the open overlay's field.
    EditField,
    /// Gives up the open overlay.
    Cancel,
    /// Submits the open overlay.
    Submit,
    CloseSettings,
    CloseMenu,
    StartBatchRename,
    StartRename,
    Reveal,
    ToggleHidden,
    Refresh,
    EnterPathBar,
    CopyName,
    CopyPath,
    ToggleContentSearch,
    CycleSort,
    ToggleBookmark,
    SelectAll,
    ClearMarks,
    StartCreate(CreateKind),
    NewWindow,
    PasteMove,
    Undo,
    ToggleTree,
    OpenSettings,
    NewTab,
    CloseTab,
    NextTab,
    PrevTab,
    Trash,
    /// Goes to the pinned place with this index.
    JumpPin(usize),
    SelectFirst,
    SelectLast,
    /// Moves the selection by this many rows.
    Move(i32),
    Open,
    QuickLook,
    Descend,
    Ascend,
    /// Drops the query's last character.
    PopQuery,
    /// Appends the typed text to the query.
    TypeQuery,
}

/// The modes whose overlay has a text field.
pub open spec fn edits_field(mode: Mode) -> bool {
    mode == Mode::PathBar || mode == Mode::Create || mode == Mode::BatchRename || mode == Mode::Rename
}

/// The command-key chords.
pub open spec fn platform_spec(ev: KeyStroke) -> Option<Command> {
    let k = ev.key@;
    if k == "enter"@ {
        Some(Command::Reveal)
    } else if k == "h"@ {
        Some(Command::ToggleHidden)
    } else if k == "r"@ {
        Some(Command::Refresh)
    } else if k == "l"@ {
        Some(Command::EnterPathBar)
    } else if k == "c"@ && ev.shift {
        Some(Command::CopyName)
    } else if k == "c"@ {
        Some(Command::CopyPath)
    } else if k == "f"@ {
        Some(Command::ToggleContentSearch)
    } else if k == "j"@ {
        Some(Command::CycleSort)
    } else if k == "b"@ {
        Some(Command::ToggleBookmark)
    } else if k == "a"@ {
        Some(Command::SelectAll)
    } else if k == "d"@ {
        Some(Command::ClearMarks)
    } else if k == "n"@ && ev.shift {
        Some(Command::StartCreate(CreateKind::Folder))
    } else if k == "n"@ && ev.alt {
        Some(Command::StartCreate(CreateKind::File))
    } else if k == "n"@ {
        Some(Command::NewWindow)
    } else if k == "v"@ {
        Some(Command::PasteMove)
    } else if k == "z"@ {
        Some(Command::Undo)
    } else if k == "\\"@ {
        Some(Command::ToggleTree)
    } else if k == ","@ {
        Some(Command::OpenSettings)
    } else if k == "t"@ {
        Some(Command::NewTab)
    } else if k == "w"@ {
        Some(Command::CloseTab)
    } else if k == "]"@ && ev.shift {
        Some(Command::NextTab)
    } else if k == "["@ && ev.shift {
        Some(Command::PrevTab)
    } else if k == "backspace"@ {
        Some(Command::Trash)
    } else if k == "1"@ {
        Some(Command::JumpPin(0))
    } else if k == "2"@ {
        Some(Command::JumpPin(1))
    } else if k == "3"@ {
        Some(Command::JumpPin(2))
    } else if k == "4"@ {
        Some(Command::JumpPin(3))
    } else if k == "5"@ {
        Some(Command::JumpPin(4))
    } else if k == "6"@ {
        Some(Command::JumpPin(5))
    } else if k == "up"@ {
        Some(Command::SelectFirst)
    } else if k == "down"@ {
        Some(Command::SelectLast)
    } else {
        None
    }
}

/// The control-key chords: one row, or half a page, down or up.
pub open spec fn control_spec(k: Seq<char>) -> Option<Command> {
    if k == "j"@ || k == "n"@ {
        Some(Command::Move(1i32))
    } else if k == "k"@ || k == "p"@ {
        Some(Command::Move(-1i32))
    } else if k == "d"@ {
        Some(Command::Move((VIEWPORT_ROWS / 2) as i32))
    } else if k == "u"@ {
        Some(Command::Move((-VIEWPORT_ROWS / 2) as i32))
    } else {
        None
    }
}

/// The key types text into the query: no command, control or option key,
/// a typed text without control characters, and not a space.
pub open spec fn types_query(ev: KeyStroke) -> bool {
    &&& !ev.platform
    &&& !ev.control
    &&& !ev.alt
    &&& ev.key_char matches Some(ch) && no_control(ch@) && ch@ != " "@
}

/// The plain keys.
pub open spec fn plain_spec(ev: KeyStroke, query_empty: bool) -> Command {
    let k = ev.key@;
    if k == "enter"@ {
        Command::Open
    } else if k == "space"@ {
        Command::QuickLook
    } else if k == "tab"@ && !ev.shift {
        Command::Descend
    } else if k == "tab"@ {
        Command::Ascend
    } else if k == "backspace"@ {
        if query_empty {
            Command::Ascend
        } else {
            Command::PopQuery
        }
    } else if k == "down"@ {
        Command::Move(1i32)
    } else if k == "up"@ {
        Command::Move(-1i32)
    } else if k == "pagedown"@ {
        Command::Move(VIEWPORT_ROWS)
    } else if k == "pageup"@ {
        Command::Move((-VIEWPORT_ROWS) as i32)
    } else if k == "home"@ {
        Command::SelectFirst
    } else if k == "end"@ {
        Command::SelectLast
    } else if types_query(ev) {
        Command::TypeQuery
    } else {
        Command::Ignore
    }
}

/// The command a key press stands for.
pub open spec fn key_command_spec(mode: Mode, menu_open: bool, ev: KeyStroke, query_empty: bool) -> Command {
    let k = ev.key@;
    if edits_field(mode) {
        if k == "escape"@ {
            Command::Cancel
        } else if k == "enter"@ {
            Command::Submit
        } else {
            Command::EditField
        }
    } else if mode == Mode::Settings {
        if k == "escape"@ || (ev.platform && k == ","@) {
            Command::CloseSettings
        } else {
            Command::Ignore
        }
    } else if menu_open && k == "escape"@ {
        Command::CloseMenu
    } else if k == "escape"@ && !ev.platform && !ev.control && !ev.alt && !ev.shift {
        Command::Quit
    } else if k == "f2"@ {
        if ev.platform {
            Command::StartBatchRename
        } else {
            Command::StartRename
        }
    } else if ev.platform && platform_spec(ev) is Some {
        platform_spec(ev).unwrap()
    } else if ev.control && control_spec(k) is Some {
        control_spec(k).unwrap()
    } else {
        plain_spec(ev, query_empty)
    }
}

fn platform_command(ev: &KeyStroke) -> (r: Option<Command>)
    ensures
        r == platform_spec(*ev),
{
    let k = ev.key.as_str();
    if str_is(k, "enter") {
        Some(Command::Reveal)
    } else if str_is(k, "h") {
        Some(Command::ToggleHidden)
    } else if str_is(k, "r") {
        Some(Command::Refresh)
    } else if str_is(k, "l") {
        Some(Command::EnterPathBar)
    } else if str_is(k, "c") && ev.shift {
        Some(Command::CopyName)
    } else if str_is(k, "c") {
        Some(Command::CopyPath)
    } else if str_is(k, "f") {
        Some(Command::ToggleContentSearch)
    } else if str_is(k, "j") {
        Some(Command::CycleSort)
    } else if str_is(k, "b") {
        Some(Command::ToggleBookmark)
    } else if str_is(k, "a") {
        Some(Command::SelectAll)
    } else if str_is(k, "d") {
        Some(Command::ClearMarks)
    } else if str_is(k, "n") && ev.shift {
        Some(Command::StartCreate(CreateKind::Folder))
    } else if str_is(k, "n") && ev.alt {
        Some(Command::StartCreate(CreateKind::File))
    } else if str_is(k, "n") {
        Some(Command::NewWindow)
    } else if str_is(k, "v") {
        Some(Command::PasteMove)
    } else if str_is(k, "z") {
        Some(Command::Undo)
    } else if str_is(k, "\\") {
        Some(Command::ToggleTree)
    } else if str_is(k, ",") {
        Some(Command::OpenSettings)
    } else if str_is(k, "t") {
        Some(Command::NewTab)
    } else if str_is(k, "w") {
        Some(Command::CloseTab)
    } else if str_is(k, "]") && ev.shift {
        Some(Command::NextTab)
    } else if str_is(k, "[") && ev.shift {
        Some(Command::PrevTab)
    } else if str_is(k, "backspace") {
        Some(Command::Trash)
    } else if str_is(k, "1") {
        Some(Command::JumpPin(0))
    } else if str_is(k, "2") {
        Some(Command::JumpPin(1))
    } else if str_is(k, "3") {
        Some(Command::JumpPin(2))
    } else if str_is(k, "4") {
        Some(Command::JumpPin(3))
    } else if str_is(k, "5") {
        Some(Command::JumpPin(4))
    } else if str_is(k, "6") {
        Some(Command::JumpPin(5))
    } else if str_is(k, "up") {
        Some(Command::SelectFirst)
    } else if str_is(k, "down") {
        Some(Command::SelectLast)
    } else {
        None
    }
}

fn control_command(ev: &KeyStroke) -> (r: Option<Command>)
    ensures
        r == control_spec(ev.key@),
{
    let k = ev.key.as_str();
    if str_is(k, "j") || str_is(k, "n") {
        Some(Command::Move(1))
    } else if str_is(k, "k") || str_is(k, "p") {
        Some(Command::Move(-1))
    } else if str_is(k, "d") {
        Some(Command::Move(VIEWPORT_ROWS / 2))
    } else if str_is(k, "u") {
        Some(Command::Move(-VIEWPORT_ROWS / 2))
    } else {
        None
    }
}

fn plain_command(ev: &KeyStroke, query_empty: bool) -> (r: Command)
    ensures
        r == plain_spec(*ev, query_empty),
{
    let k = ev.key.as_str();
    if str_is(k, "enter") {
        Command::Open
    } else if str_is(k, "space") {
        Command::QuickLook
    } else if str_is(k, "tab") && !ev.shift {
        Command::Descend
    } else if str_is(k, "tab") {
        Command::Ascend
    } else if str_is(k, "backspace") {
        if query_empty {
            Command::Ascend
        } else {
            Command::PopQuery
        }
    } else if str_is(k, "down") {
        Command::Move(1)
    } else if str_is(k, "up") {
        Command::Move(-1)
    } else if str_is(k, "pagedown") {
        Command::Move(VIEWPORT_ROWS)
    } else if str_is(k, "pageup") {
        Command::Move(-VIEWPORT_ROWS)
    } else if str_is(k, "home") {
        Command::SelectFirst
    } else if str_is(k, "end") {
        Command::SelectLast
    } else if !ev.platform && !ev.control && !ev.alt {
        match &ev.key_char {
            Some(ch) => {
                if has_no_control(ch) && !str_is(ch.as_str(), " ") {
                    Command::TypeQuery
                } else {
                    Command::Ignore
                }
            },
            None => Command::Ignore,
        }
    } else {
        Command::Ignore
    }
}

/// The command a key press stands for (see [`key_command_spec`]).
pub fn key_command(mode: Mode, menu_open: bool, ev: &KeyStroke, query_empty: bool) -> (r: Command)
    ensures
        r == key_command_spec(mode, menu_open, *ev, query_empty),
{
    let k = ev.key.as_str();
    if mode == Mode::PathBar || mode == Mode::Create || mode == Mode::BatchRename || mode == Mode::Rename {
        if str_is(k, "escape") {
            Command::Cancel
        } else if str_is(k, "enter") {
            Command::Submit
        } else {
            Command::EditField
        }
    } else if mode == Mode::Settings {
        if str_is(k, "escape") || (ev.platform && str_is(k, ",")) {
            Command::CloseSettings
        } else {
            Command::Ignore
        }
    } else if menu_open && str_is(k, "escape") {
        Command::CloseMenu
    } else if str_is(k, "escape") && !ev.platform && !ev.control && !ev.alt && !ev.shift {
        Command::Quit
    } else if str_is(k, "f2") {
        if ev.platform {
            Command::StartBatchRename
        } else {
            Command::StartRename
        }
    } else {
        if ev.platform {
            if let Some(c) = platform_command(ev) {
                return c;
            }
        }
        if ev.control {
            if let Some(c) = control_command(ev) {
                return c;
            }
        }
        plain_command(ev, query_empty)
    }
}

/// The query with the typed text appended.
pub fn typed_query(query: &str, typed: &str) -> (r: String)
    ensures
        r@ == query@ + typed@,
{
    let mut s = query.to_string();
    push_str(&mut s, typed);
    s
}

/// The query without its last character.
pub fn popped_query(query: &str) -> (r: String)
    ensures
        r@ == if query@.len() == 0 {
            query@
        } else {
            query@.drop_last()
        },
{
    let v = chars_of(query);
    if v.len() == 0 {
        return query.to_string();
    }
    let r = string_from_range(v.as_slice(), 0, v.len() - 1);
    assert(r@ =~= query@.drop_last());
    r
}

/// The last row of a list of `count` rows; 0 for an empty list.
pub fn last_row(count: usize) -> (r: usize)
    ensures
        r == if count == 0 {
            0
        } else {
            count - 1
        },
{
    if count == 0 {
        0
    } else {
        count - 1
    }
}

/// In the result list the plain Down key moves the selection one row down
/// (toward higher rows) and Up one row up, whatever else is held but the
/// command and control keys, and whether or not a menu is open or the
/// query is empty.
pub proof fn lemma_arrows_move_one_row(menu_open: bool, ev: KeyStroke, query_empty: bool)
    requires
        !ev.platform,
        !ev.control,
        ev.key@ == "down"@ || ev.key@ == "up"@,
    ensures
        ev.key@ == "down"@ ==> key_command_spec(Mode::Search, menu_open, ev, query_empty) == Command::Move(1i32),
        ev.key@ == "up"@ ==> key_command_spec(Mode::Search, menu_open, ev, query_empty) == Command::Move(-1i32),
{
    reveal_strlit("down");
    reveal_strlit("up");
    reveal_strlit("escape");
    reveal_strlit("f2");
    reveal_strlit("enter");
    reveal_strlit("space");
    reveal_strlit("tab");
    reveal_strlit("backspace");
    assert("up"@[0] != "down"@[0]);
    if ev.key@ == "down"@ {
        assert("down"@[0] != "escape"@[0]);
        assert("down"@[0] != "f2"@[0]);
        assert("down"@[0] != "enter"@[0]);
        assert("down"@[0] != "space"@[0]);
        assert("down"@[0] != "tab"@[0]);
        assert("down"@[0] != "backspace"@[0]);
    } else {
        assert("up"@[0] != "escape"@[0]);
        assert("up"@[0] != "f2"@[0]);
        assert("up"@[0] != "enter"@[0]);
        assert("up"@[0] != "space"@[0]);
        assert("up"@[0] != "tab"@[0]);
        assert("up"@[0] != "backspace"@[0]);
        assert("up"@[0] != "down"@[0]);
    }
}

/// Down and Up move the selection the same way as Control+N and
/// Control+P.
pub proof fn lemma_arrows_agree_with_control_keys(
    menu_open: bool,
    arrow: KeyStroke,
    chord: KeyStroke,
    query_empty: bool,
)
    requires
        !arrow.platform,
        !arrow.control,
        !chord.platform,
        chord.control,
        (arrow.key@ == "down"@ && chord.key@ == "n"@) || (arrow.key@ == "up"@ && chord.key@ == "p"@),
    ensures
        key_command_spec(Mode::Search, menu_open, arrow, query_empty) == key_command_spec(
            Mode::Search,
            menu_open,
            chord,
            query_empty,
        ),
{
    lemma_arrows_move_one_row(menu_open, arrow, query_empty);
    reveal_strlit("n");
    reveal_strlit("p");
    reveal_strlit("j");
    reveal_strlit("k");
    reveal_strlit("escape");
    reveal_strlit("f2");
    assert("n"@[0] != "escape"@[0]);
    assert("n"@[0] != "f2"@[0]);
    assert("p"@[0] != "escape"@[0]);
    assert("p"@[0] != "f2"@[0]);
    assert("p"@[0] != "j"@[0]);
    assert("p"@[0] != "n"@[0]);
}

/// With the command key and shift held, `]` goes to the next tab and `[`
/// to the previous one.
pub proof fn lemma_bracket_chords_switch_tabs(menu_open: bool, ev: KeyStroke, query_empty: bool)
    requires
        ev.platform,
        ev.shift,
        ev.key@ == "]"@ || ev.key@ == "["@,
    ensures
        ev.key@ == "]"@ ==> key_command_spec(Mode::Search, menu_open, ev, query_empty) == Command::NextTab,
        ev.key@ == "["@ ==> key_command_spec(Mode::Search, menu_open, ev, query_empty) == Command::PrevTab,
{
    reveal_strlit("]");
    reveal_strlit("[");
    reveal_strlit("escape");
    reveal_strlit("f2");
    reveal_strlit("enter");
    reveal_strlit("h");
    reveal_strlit("r");
    reveal_strlit("l");
    reveal_strlit("c");
    reveal_strlit("f");
    reveal_strlit("j");
    reveal_strlit("b");
    reveal_strlit("a");
    reveal_strlit("d");
    reveal_strlit("n");
    reveal_strlit("v");
    reveal_strlit("z");
    reveal_strlit("\\");
    reveal_strlit(",");
    reveal_strlit("t");
    reveal_strlit("w");
    assert("["@[0] != "]"@[0]);
    if ev.key@ == "]"@ {
        assert("]"@[0] != "escape"@[0]);
        assert("]"@[0] != "f2"@[0]);
        assert("]"@[0] != "enter"@[0]);
        assert("]"@[0] != "h"@[0]);
        assert("]"@[0] != "r"@[0]);
        assert("]"@[0] != "l"@[0]);
        assert("]"@[0] != "c"@[0]);
        assert("]"@[0] != "f"@[0]);
        assert("]"@[0] != "j"@[0]);
        assert("]"@[0] != "b"@[0]);
        assert("]"@[0] != "a"@[0]);
        assert("]"@[0] != "d"@[0]);
        assert("]"@[0] != "n"@[0]);
        assert("]"@[0] != "v"@[0]);
        assert("]"@[0] != "z"@[0]);
        assert("]"@[0] != "\\"@[0]);
        assert("]"@[0] != ","@[0]);
        assert("]"@[0] != "t"@[0]);
        assert("]"@[0] != "w"@[0]);
    } else {
        assert("["@[0] != "escape"@[0]);
        assert("["@[0] != "f2"@[0]);
        assert("["@[0] != "enter"@[0]);
        assert("["@[0] != "h"@[0]);
        assert("["@[0] != "r"@[0]);
        assert("["@[0] != "l"@[0]);
        assert("["@[0] != "c"@[0]);
        assert("["@[0] != "f"@[0]);
        assert("["@[0] != "j"@[0]);
        assert("["@[0] != "b"@[0]);
        assert("["@[0] != "a"@[0]);
        assert("["@[0] != "d"@[0]);
        assert("["@[0] != "n"@[0]);
        assert("["@[0] != "v"@[0]);
        assert("["@[0] != "z"@[0]);
        assert("["@[0] != "\\"@[0]);
        assert("["@[0] != ","@[0]);
        assert("["@[0] != "t"@[0]);
        assert("["@[0] != "w"@[0]);
        assert("["@[0] != "]"@[0]);
    }
}

/// Page Down and Page Up move the selection a page ([`VIEWPORT_ROWS`],
/// 80 rows) down and up;
/// Home and End go to the first and the last row.
pub proof fn lemma_page_and_edge_keys(menu_open: bool, ev: KeyStroke, query_empty: bool)
    requires
        !ev.platform,
        !ev.control,
        ev.key@ == "pagedown"@ || ev.key@ == "pageup"@ || ev.key@ == "home"@ || ev.key@ == "end"@,
    ensures
        ev.key@ == "pagedown"@ ==> key_command_spec(Mode::Search, menu_open, ev, query_empty)
            == Command::Move(80i32),
        ev.key@ == "pageup"@ ==> key_command_spec(Mode::Search, menu_open, ev, query_empty)
            == Command::Move(-80i32),
        ev.key@ == "home"@ ==> key_command_spec(Mode::Search, menu_open, ev, query_empty)
            == Command::SelectFirst,
        ev.key@ == "end"@ ==> key_command_spec(Mode::Search, menu_open, ev, query_empty)
            == Command::SelectLast,
{
    reveal_strlit("enter");
    reveal_strlit("h");
    reveal_strlit("r");
    reveal_strlit("l");
    reveal_strlit("c");
    reveal_strlit("f");
    reveal_strlit("j");
    reveal_strlit("b");
    reveal_strlit("a");
    reveal_strlit("d");
    reveal_strlit("n");
    reveal_strlit("v");
    reveal_strlit("z");
    reveal_strlit("\\");
    reveal_strlit(",");
    reveal_strlit("t");
    reveal_strlit("w");
    reveal_strlit("]");
    reveal_strlit("[");
    reveal_strlit("backspace");
    reveal_strlit("1");
    reveal_strlit("2");
    reveal_strlit("3");
    reveal_strlit("4");
    reveal_strlit("5");
    reveal_strlit("6");
    reveal_strlit("up");
    reveal_strlit("down");
    reveal_strlit("k");
    reveal_strlit("p");
    reveal_strlit("u");
    reveal_strlit(" ");
    reveal_strlit("space");
    reveal_strlit("tab");
    reveal_strlit("pagedown");
    reveal_strlit("pageup");
    reveal_strlit("home");
    reveal_strlit("end");
    reveal_strlit("escape");
    reveal_strlit("f2");
    if ev.key@ == "pagedown"@ {
        assert(ev.key@.len() == 8);
        assert(ev.key@[0] == 'p');
    } else if ev.key@ == "pageup"@ {
        assert(ev.key@.len() == 6);
        assert(ev.key@[0] == 'p');
    } else if ev.key@ == "home"@ {
        assert(ev.key@.len() == 4);
        assert(ev.key@[0] == 'h');
    } else if ev.key@ == "end"@ {
        assert(ev.key@.len() == 3);
        assert(ev.key@[0] == 'e');
    }
}

/// Command with Up and Down go to the first and the last row, the same
/// rows as Home and End.
pub proof fn lemma_command_arrows_go_to_the_ends(menu_open: bool, ev: KeyStroke, query_empty: bool)
    requires
        ev.platform,
        ev.key@ == "up"@ || ev.key@ == "down"@,
    ensures
        ev.key@ == "up"@ ==> key_command_spec(Mode::Search, menu_open, ev, query_empty)
            == Command::SelectFirst,
        ev.key@ == "down"@ ==> key_command_spec(Mode::Search, menu_open, ev, query_empty)
            == Command::SelectLast,
{
    reveal_strlit("enter");
    reveal_strlit("h");
    reveal_strlit("r");
    reveal_strlit("l");
    reveal_strlit("c");
    reveal_strlit("f");
    reveal_strlit("j");
    reveal_strlit("b");
    reveal_strlit("a");
    reveal_strlit("d");
    reveal_strlit("n");
    reveal_strlit("v");
    reveal_strlit("z");
    reveal_strlit("\\");
    reveal_strlit(",");
    reveal_strlit("t");
    reveal_strlit("w");
    reveal_strlit("]");
    reveal_strlit("[");
    reveal_strlit("backspace");
    reveal_strlit("1");
    reveal_strlit("2");
    reveal_strlit("3");
    reveal_strlit("4");
    reveal_strlit("5");
    reveal_strlit("6");
    reveal_strlit("up");
    reveal_strlit("down");
    reveal_strlit("k");
    reveal_strlit("p");
    reveal_strlit("u");
    reveal_strlit(" ");
    reveal_strlit("space");
    reveal_strlit("tab");
    reveal_strlit("pagedown");
    reveal_strlit("pageup");
    reveal_strlit("home");
    reveal_strlit("end");
    reveal_strlit("escape");
    reveal_strlit("f2");
    if ev.key@ == "up"@ {
        assert(ev.key@.len() == 2);
        assert(ev.key@[0] == 'u');
    } else if ev.key@ == "down"@ {
        assert(ev.key@.len() == 4);
        assert(ev.key@[0] == 'd');
    }
}

/// Command with a digit from 1 to 6 goes to the pinned place of that
/// number, counted from 1.
pub proof fn lemma_digits_jump_to_pins(menu_open: bool, ev: KeyStroke, query_empty: bool, k: usize)
    requires
        ev.platform,
        1 <= k <= 6,
        ev.key@ == seq![(('0' as u32) + k) as char],
    ensures
        key_command_spec(Mode::Search, menu_open, ev, query_empty) == Command::JumpPin((k - 1) as usize),
{
    reveal_strlit("enter");
    reveal_strlit("h");
    reveal_strlit("r");
    reveal_strlit("l");
    reveal_strlit("c");
    reveal_strlit("f");
    reveal_strlit("j");
    reveal_strlit("b");
    reveal_strlit("a");
    reveal_strlit("d");
    reveal_strlit("n");
    reveal_strlit("v");
    reveal_strlit("z");
    reveal_strlit("\\");
    reveal_strlit(",");
    reveal_strlit("t");
    reveal_strlit("w");
    reveal_strlit("]");
    reveal_strlit("[");
    reveal_strlit("backspace");
    reveal_strlit("1");
    reveal_strlit("2");
    reveal_strlit("3");
    reveal_strlit("4");
    reveal_strlit("5");
    reveal_strlit("6");
    reveal_strlit("up");
    reveal_strlit("down");
    reveal_strlit("k");
    reveal_strlit("p");
    reveal_strlit("u");
    reveal_strlit(" ");
    reveal_strlit("space");
    reveal_strlit("tab");
    reveal_strlit("pagedown");
    reveal_strlit("pageup");
    reveal_strlit("home");
    reveal_strlit("end");
    reveal_strlit("escape");
    reveal_strlit("f2");
    assert(ev.key@.len() == 1);
    assert(ev.key@[0] == (('0' as u32) + k) as char);
    if k == 1 {
        assert(ev.key@ =~= "1"@);
    } else if k == 2 {
        assert(ev.key@ =~= "2"@);
    } else if k == 3 {
        assert(ev.key@ =~= "3"@);
    } else if k == 4 {
        assert(ev.key@ =~= "4"@);
    } else if k == 5 {
        assert(ev.key@ =~= "5"@);
    } else if k == 6 {
        assert(ev.key@ =~= "6"@);
    }
}

/// Control with D and U move the selection half a page (40 rows) down and
/// up.
pub proof fn lemma_half_page_keys(menu_open: bool, ev: KeyStroke, query_empty: bool)
    requires
        !ev.platform,
        ev.control,
        ev.key@ == "d"@ || ev.key@ == "u"@,
    ensures
        ev.key@ == "d"@ ==> key_command_spec(Mode::Search, menu_open, ev, query_empty)
            == Command::Move(40i32),
        ev.key@ == "u"@ ==> key_command_spec(Mode::Search, menu_open, ev, query_empty)
            == Command::Move(-40i32),
{
    reveal_strlit("enter");
    reveal_strlit("h");
    reveal_strlit("r");
    reveal_strlit("l");
    reveal_strlit("c");
    reveal_strlit("f");
    reveal_strlit("j");
    reveal_strlit("b");
    reveal_strlit("a");
    reveal_strlit("d");
    reveal_strlit("n");
    reveal_strlit("v");
    reveal_strlit("z");
    reveal_strlit("\\");
    reveal_strlit(",");
    reveal_strlit("t");
    reveal_strlit("w");
    reveal_strlit("]");
    reveal_strlit("[");
    reveal_strlit("backspace");
    reveal_strlit("1");
    reveal_strlit("2");
    reveal_strlit("3");
    reveal_strlit("4");
    reveal_strlit("5");
    reveal_strlit("6");
    reveal_strlit("up");
    reveal_strlit("down");
    reveal_strlit("k");
    reveal_strlit("p");
    reveal_strlit("u");
    reveal_strlit(" ");
    reveal_strlit("space");
    reveal_strlit("tab");
    reveal_strlit("pagedown");
    reveal_strlit("pageup");
    reveal_strlit("home");
    reveal_strlit("end");
    reveal_strlit("escape");
    reveal_strlit("f2");
    if ev.key@ == "d"@ {
        assert(ev.key@.len() == 1);
        assert(ev.key@[0] == 'd');
    } else if ev.key@ == "u"@ {
        assert(ev.key@.len() == 1);
        assert(ev.key@[0] == 'u');
    }
}

/// In the result list Enter opens the selected entry and Space previews
/// it; Tab goes into the selected folder and Shift+Tab up to the parent.
pub proof fn lemma_open_preview_and_tab_keys(menu_open: bool, ev: KeyStroke, query_empty: bool)
    requires
        !ev.platform,
        !ev.control,
    ensures
        ev.key@ == "enter"@ ==> key_command_spec(Mode::Search, menu_open, ev, query_empty)
            == Command::Open,
        ev.key@ == "space"@ ==> key_command_spec(Mode::Search, menu_open, ev, query_empty)
            == Command::QuickLook,
        ev.key@ == "tab"@ && !ev.shift ==> key_command_spec(Mode::Search, menu_open, ev, query_empty)
            == Command::Descend,
        ev.key@ == "tab"@ && ev.shift ==> key_command_spec(Mode::Search, menu_open, ev, query_empty)
            == Command::Ascend,
{
    reveal_strlit("enter");
    reveal_strlit("h");
    reveal_strlit("r");
    reveal_strlit("l");
    reveal_strlit("c");
    reveal_strlit("f");
    reveal_strlit("j");
    reveal_strlit("b");
    reveal_strlit("a");
    reveal_strlit("d");
    reveal_strlit("n");
    reveal_strlit("v");
    reveal_strlit("z");
    reveal_strlit("\\");
    reveal_strlit(",");
    reveal_strlit("t");
    reveal_strlit("w");
    reveal_strlit("]");
    reveal_strlit("[");
    reveal_strlit("backspace");
    reveal_strlit("1");
    reveal_strlit("2");
    reveal_strlit("3");
    reveal_strlit("4");
    reveal_strlit("5");
    reveal_strlit("6");
    reveal_strlit("up");
    reveal_strlit("down");
    reveal_strlit("k");
    reveal_strlit("p");
    reveal_strlit("u");
    reveal_strlit(" ");
    reveal_strlit("space");
    reveal_strlit("tab");
    reveal_strlit("pagedown");
    reveal_strlit("pageup");
    reveal_strlit("home");
    reveal_strlit("end");
    reveal_strlit("escape");
    reveal_strlit("f2");
    if ev.key@ == "enter"@ {
        assert(ev.key@.len() == 5);
        assert(ev.key@[0] == 'e');
    } else if ev.key@ == "space"@ {
        assert(ev.key@.len() == 5);
        assert(ev.key@[0] == 's');
    } else if ev.key@ == "tab"@ {
        assert(ev.key@.len() == 3);
        assert(ev.key@[0] == 't');
    }
}

/// Backspace drops the last character of a query that has one, and on an
/// empty query goes up to the parent folder, as Shift+Tab does.
pub proof fn lemma_backspace_pops_query_or_ascends(menu_open: bool, ev: KeyStroke, query_empty: bool)
    requires
        !ev.platform,
        !ev.control,
    ensures
        ev.key@ == "backspace"@ && query_empty ==> key_command_spec(Mode::Search, menu_open, ev, query_empty)
            == Command::Ascend,
        ev.key@ == "backspace"@ && !query_empty ==> key_command_spec(Mode::Search, menu_open, ev, query_empty)
            == Command::PopQuery,
{
    reveal_strlit("enter");
    reveal_strlit("h");
    reveal_strlit("r");
    reveal_strlit("l");
    reveal_strlit("c");
    reveal_strlit("f");
    reveal_strlit("j");
    reveal_strlit("b");
    reveal_strlit("a");
    reveal_strlit("d");
    reveal_strlit("n");
    reveal_strlit("v");
    reveal_strlit("z");
    reveal_strlit("\\");
    reveal_strlit(",");
    reveal_strlit("t");
    reveal_strlit("w");
    reveal_strlit("]");
    reveal_strlit("[");
    reveal_strlit("backspace");
    reveal_strlit("1");
    reveal_strlit("2");
    reveal_strlit("3");
    reveal_strlit("4");
    reveal_strlit("5");
    reveal_strlit("6");
    reveal_strlit("up");
    reveal_strlit("down");
    reveal_strlit("k");
    reveal_strlit("p");
    reveal_strlit("u");
    reveal_strlit(" ");
    reveal_strlit("space");
    reveal_strlit("tab");
    reveal_strlit("pagedown");
    reveal_strlit("pageup");
    reveal_strlit("home");
    reveal_strlit("end");
    reveal_strlit("escape");
    reveal_strlit("f2");
    if ev.key@ == "backspace"@ {
        assert(ev.key@.len() == 9);
        assert(ev.key@[0] == 'b');
    }
}

/// In the result list Escape closes an open menu; with no menu open and
/// no modifier held it quits.
pub proof fn lemma_escape_closes_menu_or_quits(menu_open: bool, ev: KeyStroke, query_empty: bool)
    ensures
        ev.key@ == "escape"@ && menu_open ==> key_command_spec(Mode::Search, menu_open, ev, query_empty)
            == Command::CloseMenu,
        ev.key@ == "escape"@ && !menu_open && !ev.platform && !ev.control && !ev.alt && !ev.shift ==> key_command_spec(Mode::Search, menu_open, ev, query_empty)
            == Command::Quit,
{
    reveal_strlit("enter");
    reveal_strlit("h");
    reveal_strlit("r");
    reveal_strlit("l");
    reveal_strlit("c");
    reveal_strlit("f");
    reveal_strlit("j");
    reveal_strlit("b");
    reveal_strlit("a");
    reveal_strlit("d");
    reveal_strlit("n");
    reveal_strlit("v");
    reveal_strlit("z");
    reveal_strlit("\\");
    reveal_strlit(",");
    reveal_strlit("t");
    reveal_strlit("w");
    reveal_strlit("]");
    reveal_strlit("[");
    reveal_strlit("backspace");
    reveal_strlit("1");
    reveal_strlit("2");
    reveal_strlit("3");
    reveal_strlit("4");
    reveal_strlit("5");
    reveal_strlit("6");
    reveal_strlit("up");
    reveal_strlit("down");
    reveal_strlit("k");
    reveal_strlit("p");
    reveal_strlit("u");
    reveal_strlit(" ");
    reveal_strlit("space");
    reveal_strlit("tab");
    reveal_strlit("pagedown");
    reveal_strlit("pageup");
    reveal_strlit("home");
    reveal_strlit("end");
    reveal_strlit("escape");
    reveal_strlit("f2");
    if ev.key@ == "escape"@ {
        assert(ev.key@.len() == 6);
        assert(ev.key@[0] == 'e');
    }
}

/// While an overlay with a text field is open, Escape gives it up, Enter
/// submits it and every other key edits the field.
pub proof fn lemma_text_field_keys(mode: Mode, menu_open: bool, ev: KeyStroke, query_empty: bool)
    requires
        mode == Mode::PathBar || mode == Mode::Create || mode == Mode::BatchRename || mode == Mode::Rename,
    ensures
        ev.key@ == "escape"@ ==> key_command_spec(mode, menu_open, ev, query_empty)
            == Command::Cancel,
        ev.key@ == "enter"@ ==> key_command_spec(mode, menu_open, ev, query_empty)
            == Command::Submit,
        ev.key@ != "escape"@ && ev.key@ != "enter"@ ==> key_command_spec(mode, menu_open, ev,
            query_empty) == Command::EditField,
{
    reveal_strlit("enter");
    reveal_strlit("h");
    reveal_strlit("r");
    reveal_strlit("l");
    reveal_strlit("c");
    reveal_strlit("f");
    reveal_strlit("j");
    reveal_strlit("b");
    reveal_strlit("a");
    reveal_strlit("d");
    reveal_strlit("n");
    reveal_strlit("v");
    reveal_strlit("z");
    reveal_strlit("\\");
    reveal_strlit(",");
    reveal_strlit("t");
    reveal_strlit("w");
    reveal_strlit("]");
    reveal_strlit("[");
    reveal_strlit("backspace");
    reveal_strlit("1");
    reveal_strlit("2");
    reveal_strlit("3");
    reveal_strlit("4");
    reveal_strlit("5");
    reveal_strlit("6");
    reveal_strlit("up");
    reveal_strlit("down");
    reveal_strlit("k");
    reveal_strlit("p");
    reveal_strlit("u");
    reveal_strlit(" ");
    reveal_strlit("space");
    reveal_strlit("tab");
    reveal_strlit("pagedown");
    reveal_strlit("pageup");
    reveal_strlit("home");
    reveal_strlit("end");
    reveal_strlit("escape");
    reveal_strlit("f2");
    if ev.key@ == "escape"@ {
        assert(ev.key@.len() == 6);
        assert(ev.key@[0] == 'e');
    } else if ev.key@ == "enter"@ {
        assert(ev.key@.len() == 5);
        assert(ev.key@[0] == 'e');
    }
}

/// While the settings are open, Escape and Command+Comma close them.
pub proof fn lemma_settings_keys(menu_open: bool, ev: KeyStroke, query_empty: bool)
    ensures
        ev.key@ == "escape"@ ==> key_command_spec(Mode::Settings, menu_open, ev, query_empty)
            == Command::CloseSettings,
        ev.key@ == ","@ && ev.platform ==> key_command_spec(Mode::Settings, menu_open, ev, query_empty)
            == Command::CloseSettings,
{
    reveal_strlit("enter");
    reveal_strlit("h");
    reveal_strlit("r");
    reveal_strlit("l");
    reveal_strlit("c");
    reveal_strlit("f");
    reveal_strlit("j");
    reveal_strlit("b");
    reveal_strlit("a");
    reveal_strlit("d");
    reveal_strlit("n");
    reveal_strlit("v");
    reveal_strlit("z");
    reveal_strlit("\\");
    reveal_strlit(",");
    reveal_strlit("t");
    reveal_strlit("w");
    reveal_strlit("]");
    reveal_strlit("[");
    reveal_strlit("backspace");
    reveal_strlit("1");
    reveal_strlit("2");
    reveal_strlit("3");
    reveal_strlit("4");
    reveal_strlit("5");
    reveal_strlit("6");
    reveal_strlit("up");
    reveal_strlit("down");
    reveal_strlit("k");
    reveal_strlit("p");
    reveal_strlit("u");
    reveal_strlit(" ");
    reveal_strlit("space");
    reveal_strlit("tab");
    reveal_strlit("pagedown");
    reveal_strlit("pageup");
    reveal_strlit("home");
    reveal_strlit("end");
    reveal_strlit("escape");
    reveal_strlit("f2");
    if ev.key@ == "escape"@ {
        assert(ev.key@.len() == 6);
        assert(ev.key@[0] == 'e');
    } else if ev.key@ == ","@ {
        assert(ev.key@.len() == 1);
        assert(ev.key@[0] == ',');
    }
}

/// F2 renames the selected entry; Command+F2 renames the marked entries
/// together.
pub proof fn lemma_f2_renames(menu_open: bool, ev: KeyStroke, query_empty: bool)
    ensures
        ev.key@ == "f2"@ && !ev.platform ==> key_command_spec(Mode::Search, menu_open, ev, query_empty)
            == Command::StartRename,
        ev.key@ == "f2"@ && ev.platform ==> key_command_spec(Mode::Search, menu_open, ev, query_empty)
            == Command::StartBatchRename,
{
    reveal_strlit("enter");
    reveal_strlit("h");
    reveal_strlit("r");
    reveal_strlit("l");
    reveal_strlit("c");
    reveal_strlit("f");
    reveal_strlit("j");
    reveal_strlit("b");
    reveal_strlit("a");
    reveal_strlit("d");
    reveal_strlit("n");
    reveal_strlit("v");
    reveal_strlit("z");
    reveal_strlit("\\");
    reveal_strlit(",");
    reveal_strlit("t");
    reveal_strlit("w");
    reveal_strlit("]");
    reveal_strlit("[");
    reveal_strlit("backspace");
    reveal_strlit("1");
    reveal_strlit("2");
    reveal_strlit("3");
    reveal_strlit("4");
    reveal_strlit("5");
    reveal_strlit("6");
    reveal_strlit("up");
    reveal_strlit("down");
    reveal_strlit("k");
    reveal_strlit("p");
    reveal_strlit("u");
    reveal_strlit(" ");
    reveal_strlit("space");
    reveal_strlit("tab");
    reveal_strlit("pagedown");
    reveal_strlit("pageup");
    reveal_strlit("home");
    reveal_strlit("end");
    reveal_strlit("escape");
    reveal_strlit("f2");
    if ev.key@ == "f2"@ {
        assert(ev.key@.len() == 2);
        assert(ev.key@[0] == 'f');
    }
}

/// The command-key chords of the result list, whatever menu is open and
/// whatever the query.
pub proof fn lemma_command_chords(menu_open: bool, ev: KeyStroke, query_empty: bool)
    requires
        ev.platform,
    ensures
        ev.key@ == "enter"@ ==> key_command_spec(Mode::Search, menu_open, ev, query_empty)
            == Command::Reveal,
        ev.key@ == "h"@ ==> key_command_spec(Mode::Search, menu_open, ev, query_empty)
            == Command::ToggleHidden,
        ev.key@ == "r"@ ==> key_command_spec(Mode::Search, menu_open, ev, query_empty)
            == Command::Refresh,
        ev.key@ == "l"@ ==> key_command_spec(Mode::Search, menu_open, ev, query_empty)
            == Command::EnterPathBar,
        ev.key@ == "c"@ && ev.shift ==> key_command_spec(Mode::Search, menu_open, ev, query_empty)
            == Command::CopyName,
        ev.key@ == "c"@ && !ev.shift ==> key_command_spec(Mode::Search, menu_open, ev, query_empty)
            == Command::CopyPath,
        ev.key@ == "f"@ ==> key_command_spec(Mode::Search, menu_open, ev, query_empty)
            == Command::ToggleContentSearch,
        ev.key@ == "j"@ ==> key_command_spec(Mode::Search, menu_open, ev, query_empty)
            == Command::CycleSort,
        ev.key@ == "b"@ ==> key_command_spec(Mode::Search, menu_open, ev, query_empty)
            == Command::ToggleBookmark,
        ev.key@ == "a"@ ==> key_command_spec(Mode::Search, menu_open, ev, query_empty)
            == Command::SelectAll,
        ev.key@ == "d"@ ==> key_command_spec(Mode::Search, menu_open, ev, query_empty)
            == Command::ClearMarks,
        ev.key@ == "n"@ && ev.shift ==> key_command_spec(Mode::Search, menu_open, ev, query_empty)
            == Command::StartCreate(CreateKind::Folder),
        ev.key@ == "n"@ && !ev.shift && ev.alt ==> key_command_spec(Mode::Search, menu_open, ev, query_empty)
            == Command::StartCreate(CreateKind::File),
        ev.key@ == "n"@ && !ev.shift && !ev.alt ==> key_command_spec(Mode::Search, menu_open, ev, query_empty)
            == Command::NewWindow,
        ev.key@ == "v"@ ==> key_command_spec(Mode::Search, menu_open, ev, query_empty)
            == Command::PasteMove,
        ev.key@ == "z"@ ==> key_command_spec(Mode::Search, menu_open, ev, query_empty)
            == Command::Undo,
        ev.key@ == "\\"@ ==> key_command_spec(Mode::Search, menu_open, ev, query_empty)
            == Command::ToggleTree,
        ev.key@ == ","@ ==> key_command_spec(Mode::Search, menu_open, ev, query_empty)
            == Command::OpenSettings,
        ev.key@ == "t"@ ==> key_command_spec(Mode::Search, menu_open, ev, query_empty)
            == Command::NewTab,
        ev.key@ == "w"@ ==> key_command_spec(Mode::Search, menu_open, ev, query_empty)
            == Command::CloseTab,
        ev.key@ == "backspace"@ ==> key_command_spec(Mode::Search, menu_open, ev, query_empty)
            == Command::Trash,
{
    reveal_strlit("enter");
    reveal_strlit("h");
    reveal_strlit("r");
    reveal_strlit("l");
    reveal_strlit("c");
    reveal_strlit("f");
    reveal_strlit("j");
    reveal_strlit("b");
    reveal_strlit("a");
    reveal_strlit("d");
    reveal_strlit("n");
    reveal_strlit("v");
    reveal_strlit("z");
    reveal_strlit("\\");
    reveal_strlit(",");
    reveal_strlit("t");
    reveal_strlit("w");
    reveal_strlit("]");
    reveal_strlit("[");
    reveal_strlit("backspace");
    reveal_strlit("1");
    reveal_strlit("2");
    reveal_strlit("3");
    reveal_strlit("4");
    reveal_strlit("5");
    reveal_strlit("6");
    reveal_strlit("up");
    reveal_strlit("down");
    reveal_strlit("k");
    reveal_strlit("p");
    reveal_strlit("u");
    reveal_strlit(" ");
    reveal_strlit("space");
    reveal_strlit("tab");
    reveal_strlit("pagedown");
    reveal_strlit("pageup");
    reveal_strlit("home");
    reveal_strlit("end");
    reveal_strlit("escape");
    reveal_strlit("f2");
    if ev.key@ == "enter"@ {
        assert(ev.key@.len() == 5);
        assert(ev.key@[0] == 'e');
    } else if ev.key@ == "h"@ {
        assert(ev.key@.len() == 1);
        assert(ev.key@[0] == 'h');
    } else if ev.key@ == "r"@ {
        assert(ev.key@.len() == 1);
        assert(ev.key@[0] == 'r');
    } else if ev.key@ == "l"@ {
        assert(ev.key@.len() == 1);
        assert(ev.key@[0] == 'l');
    } else if ev.key@ == "c"@ {
        assert(ev.key@.len() == 1);
        assert(ev.key@[0] == 'c');
    } else if ev.key@ == "f"@ {
        assert(ev.key@.len() == 1);
        assert(ev.key@[0] == 'f');
    } else if ev.key@ == "j"@ {
        assert(ev.key@.len() == 1);
        assert(ev.key@[0] == 'j');
    } else if ev.key@ == "b"@ {
        assert(ev.key@.len() == 1);
        assert(ev.key@[0] == 'b');
    } else if ev.key@ == "a"@ {
        assert(ev.key@.len() == 1);
        assert(ev.key@[0] == 'a');
    } else if ev.key@ == "d"@ {
        assert(ev.key@.len() == 1);
        assert(ev.key@[0] == 'd');
    } else if ev.key@ == "n"@ {
        assert(ev.key@.len() == 1);
        assert(ev.key@[0] == 'n');
    } else if ev.key@ == "v"@ {
        assert(ev.key@.len() == 1);
        assert(ev.key@[0] == 'v');
    } else if ev.key@ == "z"@ {
        assert(ev.key@.len() == 1);
        assert(ev.key@[0] == 'z');
    } else if ev.key@ == "\\"@ {
        assert(ev.key@.len() == 1);
        assert(ev.key@[0] == '\\');
    } else if ev.key@ == ","@ {
        assert(ev.key@.len() == 1);
        assert(ev.key@[0] == ',');
    } else if ev.key@ == "t"@ {
        assert(ev.key@.len() == 1);
        assert(ev.key@[0] == 't');
    } else if ev.key@ == "w"@ {
        assert(ev.key@.len() == 1);
        assert(ev.key@[0] == 'w');
    } else if ev.key@ == "backspace"@ {
        assert(ev.key@.len() == 9);
        assert(ev.key@[0] == 'b');
    }
}

} // verus!
