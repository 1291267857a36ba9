//! What the selected and marked rows stand for: in filename mode the rows
//! are the index's results, in content mode the matches of the running
//! content search (none while no search runs). Also the sidebar's pinned
//! places.

use crate::content::ContentMatch;
use crate::index::PathEntry;
use crate::paths::{join, join_path};
use crate::session::SearchMode;
use crate::text::{chars_of, decimal, push_decimal, push_str};
use std::collections::BTreeSet;
use vstd::prelude::*;

verus! {

/// The paths of the rows the list shows.
pub open spec fn row_paths(
    mode: SearchMode,
    results: Seq<PathEntry>,
    matches: Option<Seq<ContentMatch>>,
) -> Seq<Seq<char>> {
    match mode {
        SearchMode::Filename => results.map_values(|e: PathEntry| e.path@),
        SearchMode::Content => match matches {
            Some(ms) => ms.map_values(|m: ContentMatch| m.path@),
            None => seq![],
        },
    }
}

/// The matches by their contents, when a content search runs.
pub open spec fn opt_matches(matches: Option<&Vec<ContentMatch>>) -> Option<Seq<ContentMatch>> {
    match matches {
        Some(v) => Some(v@),
        None => None,
    }
}

/// How many rows the list shows.
pub fn current_count(
    mode: SearchMode,
    results: &Vec<PathEntry>,
    matches: Option<&Vec<ContentMatch>>,
) -> (r: usize)
    ensures
        r == row_paths(mode, results@, opt_matches(matches)).len(),
{
    match mode {
        SearchMode::Filename => results.len(),
        SearchMode::Content => match matches {
            Some(ms) => ms.len(),
            None => 0,
        },
    }
}

/// The path of the selected row, if the selection is on a row.
pub fn current_path(
    mode: SearchMode,
    results: &Vec<PathEntry>,
    matches: Option<&Vec<ContentMatch>>,
    selected: usize,
) -> (r: Option<String>)
    ensures
        ({
            let ps = row_paths(mode, results@, opt_matches(matches));
            match r {
                Some(p) => selected < ps.len() && p@ == ps[selected as int],
                None => selected >= ps.len(),
            }
        }),
{
    match mode {
        SearchMode::Filename => {
            if selected < results.len() {
                Some(results[selected].path.clone())
            } else {
                None
            }
        },
        SearchMode::Content => match matches {
            Some(ms) => {
                if selected < ms.len() {
                    Some(ms[selected].path.clone())
                } else {
                    None
                }
            },
            None => None,
        },
    }
}

/// Whether the selected row is a folder: only result rows can be.
pub fn current_is_dir(mode: SearchMode, results: &Vec<PathEntry>, selected: usize) -> (r: bool)
    ensures
        r == (mode == SearchMode::Filename && selected < results@.len() && results@[selected as int].is_dir),
{
    match mode {
        SearchMode::Filename => selected < results.len() && results[selected].is_dir,
        SearchMode::Content => false,
    }
}

/// The folder that going down from the selection enters: the selected row,
/// when it is a folder.
pub fn descend_target(mode: SearchMode, results: &Vec<PathEntry>, selected: usize) -> (r: Option<String>)
    ensures
        match r {
            Some(p) => mode == SearchMode::Filename && selected < results@.len()
                && results@[selected as int].is_dir && p@ == results@[selected as int].path@,
            None => !(mode == SearchMode::Filename && selected < results@.len()
                && results@[selected as int].is_dir),
        },
{
    if current_is_dir(mode, results, selected) {
        Some(results[selected].path.clone())
    } else {
        None
    }
}

/// What opening the selection opens: a match at its line, or the selected
/// path.
pub fn open_request(
    mode: SearchMode,
    results: &Vec<PathEntry>,
    matches: Option<&Vec<ContentMatch>>,
    selected: usize,
) -> (r: Option<(String, Option<u64>)>)
    ensures
        ({
            let ps = row_paths(mode, results@, opt_matches(matches));
            match r {
                Some((p, line)) => selected < ps.len() && p@ == ps[selected as int] && match line {
                    Some(l) => mode == SearchMode::Content && l == matches.unwrap()@[selected as int].line,
                    None => mode == SearchMode::Filename,
                },
                None => selected >= ps.len(),
            }
        }),
{
    match mode {
        SearchMode::Content => match matches {
            Some(ms) => {
                if selected < ms.len() {
                    Some((ms[selected].path.clone(), Some(ms[selected].line)))
                } else {
                    None
                }
            },
            None => None,
        },
        SearchMode::Filename => match current_path(mode, results, matches, selected) {
            Some(p) => Some((p, None)),
            None => None,
        },
    }
}

/// The editors tried, in order, to open a match at its line: Cursor, then
/// VS Code (each with `--goto path:line`), then `$EDITOR` when it is set
/// and not empty (with `+line path`), and last `open` on the path.
pub open spec fn editor_launches_spec(path: Seq<char>, line: nat, editor: Option<Seq<char>>) -> Seq<
    (Seq<char>, Seq<Seq<char>>),
> {
    let goto = path + ":"@ + decimal(line);
    seq![("cursor"@, seq!["--goto"@, goto]), ("code"@, seq!["--goto"@, goto])] + (match editor {
        Some(e) => if e.len() > 0 {
            seq![(e, seq!["+"@ + decimal(line), path])]
        } else {
            seq![]
        },
        None => seq![],
    }) + seq![("open"@, seq![path])]
}

/// A command by its views.
pub open spec fn launch_view(c: (String, Vec<String>)) -> (Seq<char>, Seq<Seq<char>>) {
    (c.0@, c.1@.map_values(|a: String| a@))
}

/// The commands to try, in order, to open `path` at `line` (see
/// [`editor_launches_spec`]); the first that starts is the one used.
pub fn editor_launches(path: &str, line: u64, editor: Option<&str>) -> (r: Vec<(String, Vec<String>)>)
    ensures
        r@.map_values(|c: (String, Vec<String>)| launch_view(c)) == editor_launches_spec(
            path@,
            line as nat,
            match editor {
                Some(e) => Some(e@),
                None => None,
            },
        ),
{
    let mut goto = path.to_string();
    push_str(&mut goto, ":");
    push_decimal(&mut goto, line);
    let mut out: Vec<(String, Vec<String>)> = Vec::new();
    out.push(("cursor".to_string(), vec!["--goto".to_string(), goto.clone()]));
    out.push(("code".to_string(), vec!["--goto".to_string(), goto]));
    let ghost front = out@.map_values(|c: (String, Vec<String>)| launch_view(c));
    let mut extra: Vec<(String, Vec<String>)> = Vec::new();
    match editor {
        Some(e) => {
            if chars_of(e).len() > 0 {
                let mut at = "+".to_string();
                push_decimal(&mut at, line);
                extra.push((e.to_string(), vec![at, path.to_string()]));
            }
        },
        None => {},
    }
    let ghost mid = extra@.map_values(|c: (String, Vec<String>)| launch_view(c));
    out.append(&mut extra);
    out.push(("open".to_string(), vec![path.to_string()]));
    proof {
        let goto_v = path@ + ":"@ + decimal(line as nat);
        assert(front[0].1 =~= seq!["--goto"@, goto_v]);
        assert(front[1].1 =~= seq!["--goto"@, goto_v]);
        assert(front =~= seq![("cursor"@, seq!["--goto"@, goto_v]), ("code"@, seq!["--goto"@, goto_v])]);
        match editor {
            Some(e) => {
                if e@.len() > 0 {
                    assert(mid[0].1 =~= seq!["+"@ + decimal(line as nat), path@]);
                    assert(mid =~= seq![(e@, seq!["+"@ + decimal(line as nat), path@])]);
                } else {
                    assert(mid =~= seq![]);
                }
            },
            None => {
                assert(mid =~= seq![]);
            },
        }
        let last = out@[out@.len() - 1];
        assert(launch_view(last).1 =~= seq![path@]);
        assert(out@.map_values(|c: (String, Vec<String>)| launch_view(c)) =~= front + mid + seq![
            ("open"@, seq![path@]),
        ]);
    }
    out
}

/// The paths of the marked rows among the first `n` rows, in row order.
pub open spec fn marked_rows(ps: Seq<Seq<char>>, marked: Set<usize>, n: nat) -> Seq<Seq<char>>
    decreases n,
{
    if n == 0 {
        seq![]
    } else {
        let pre = marked_rows(ps, marked, (n - 1) as nat);
        if marked.contains((n - 1) as usize) {
            pre.push(ps[n - 1])
        } else {
            pre
        }
    }
}

/// The paths of the marked rows, in row order; marks past the last row
/// stand for nothing.
pub fn marked_paths(
    mode: SearchMode,
    results: &Vec<PathEntry>,
    matches: Option<&Vec<ContentMatch>>,
    marked: &BTreeSet<usize>,
) -> (r: Vec<String>)
    ensures
        ({
            let ps = row_paths(mode, results@, opt_matches(matches));
            r@.map_values(|s: String| s@) == marked_rows(ps, marked@, ps.len())
        }),
{
    broadcast use vstd::std_specs::btree::group_btree_axioms;

    let ghost ps = row_paths(mode, results@, opt_matches(matches));
    let n = current_count(mode, results, matches);
    let mut out: Vec<String> = Vec::new();
    let mut i: usize = 0;
    while i < n
        invariant
            i <= n,
            n == ps.len(),
            ps == row_paths(mode, results@, opt_matches(matches)),
            out@.map_values(|s: String| s@) == marked_rows(ps, marked@, i as nat),
        decreases n - i,
    {
        if marked.contains(&i) {
            let p = current_path(mode, results, matches, i).unwrap();
            let ghost before = out@.map_values(|s: String| s@);
            out.push(p);
            assert(out@.map_values(|s: String| s@) =~= before.push(ps[i as int]));
        }
        i += 1;
    }
    out
}

/// What a right-click on row `idx` opens the context menu on: the row's
/// path and whether it is a folder (a match never is); nothing past the
/// last row.
pub fn menu_target(
    mode: SearchMode,
    results: &Vec<PathEntry>,
    matches: Option<&Vec<ContentMatch>>,
    idx: usize,
) -> (r: Option<(String, bool)>)
    ensures
        ({
            let ps = row_paths(mode, results@, opt_matches(matches));
            match r {
                Some((p, d)) => idx < ps.len() && p@ == ps[idx as int] && d == (mode == SearchMode::Filename
                    && results@[idx as int].is_dir),
                None => idx >= ps.len(),
            }
        }),
{
    match mode {
        SearchMode::Filename => {
            if idx < results.len() {
                Some((results[idx].path.clone(), results[idx].is_dir))
            } else {
                None
            }
        },
        SearchMode::Content => match current_path(mode, results, matches, idx) {
            Some(p) => Some((p, false)),
            None => None,
        },
    }
}

/// The context menu's items, label then shortcut, top to bottom.
pub open spec fn menu_items_spec(is_dir: bool) -> Seq<(Seq<char>, Seq<char>)> {
    seq![
        (if is_dir {
            "Open Folder"@
        } else {
            "Open"@
        }, "↵"@),
        ("Reveal in Finder"@, "⌘↵"@),
        ("Quick Look"@, "␣"@),
        ("Copy Path"@, "⌘C"@),
        ("Rename"@, "F2"@),
        ("Move to Trash"@, "⌘⌫"@),
    ]
}

/// The context menu's items for a folder or a file (see
/// [`menu_items_spec`]).
pub fn menu_items(is_dir: bool) -> (r: Vec<(&'static str, &'static str)>)
    ensures
        r@.map_values(|h: (&'static str, &'static str)| (h.0@, h.1@)) == menu_items_spec(is_dir),
{
    let open = if is_dir {
        "Open Folder"
    } else {
        "Open"
    };
    let v = vec![
        (open, "↵"),
        ("Reveal in Finder", "⌘↵"),
        ("Quick Look", "␣"),
        ("Copy Path", "⌘C"),
        ("Rename", "F2"),
        ("Move to Trash", "⌘⌫"),
    ];
    assert(v@.map_values(|h: (&'static str, &'static str)| (h.0@, h.1@)) =~= menu_items_spec(is_dir));
    v
}

/// A place pinned in the sidebar.
pub struct Pin {
    pub label: String,
    pub icon: String,
    pub path: String,
}

/// The pinned places by label and path.
pub open spec fn pins_spec(home: Seq<char>) -> Seq<(Seq<char>, Seq<char>)> {
    seq![
        ("Home"@, home),
        ("Documents"@, join_path(home, "Documents"@)),
        ("Downloads"@, join_path(home, "Downloads"@)),
        ("Desktop"@, join_path(home, "Desktop"@)),
        ("Applications"@, "/Applications"@),
        ("Projects"@, join_path(home, "code"@)),
    ]
}

fn pin(label: &str, path: String) -> (r: Pin)
    ensures
        r.label@ == label@,
        r.path@ == path@,
        r.icon@ == ""@,
{
    Pin { label: label.to_string(), icon: "".to_string(), path }
}

/// The sidebar's pinned places under the home folder `home`, in order (see
/// [`pins_spec`]); none has an icon.
pub fn pins(home: &str) -> (r: Vec<Pin>)
    ensures
        r@.map_values(|p: Pin| (p.label@, p.path@)) == pins_spec(home@),
        forall|k: int| 0 <= k < r@.len() ==> #[trigger] r@[k].icon@ == ""@,
{
    let v = vec![
        pin("Home", home.to_string()),
        pin("Documents", join(home, "Documents")),
        pin("Downloads", join(home, "Downloads")),
        pin("Desktop", join(home, "Desktop")),
        pin("Applications", "/Applications".to_string()),
        pin("Projects", join(home, "code")),
    ];
    assert(v@.map_values(|p: Pin| (p.label@, p.path@)) =~= pins_spec(home@));
    v
}

} // verus!
