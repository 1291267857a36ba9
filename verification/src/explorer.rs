//! The explorer's state that does not touch the file system: tabs, the live
//! view of the active tab, marks, selection, recents and bookmarks.

use vstd::prelude::*;
use crate::paths::{parent_of, path_parent};
use crate::session::{sort_from_label, SearchMode, SortMode, TabSnapshot, TabView};
use crate::settings::Settings;
use std::collections::BTreeSet;

verus! {

/// How many recent roots are remembered.
pub const RECENTS_MAX: usize = 8;

/// The open tabs, one of them active.
pub struct Tabs {
    pub tabs: Vec<TabSnapshot>,
    pub active: usize,
}

/// The contents of a list of tab snapshots.
pub open spec fn tab_views(ts: Seq<TabSnapshot>) -> Seq<TabView> {
    ts.map_values(|t: TabSnapshot| t@)
}

/// Index of the tab after `a` among `n`, wrapping around.
pub open spec fn next_index(a: int, n: int) -> int {
    (a + 1) % n
}

/// Index of the tab before `a` among `n`, wrapping around.
pub open spec fn prev_index(a: int, n: int) -> int {
    (a + n - 1) % n
}

impl Tabs {
    /// At least one tab, and the active one exists.
    pub open spec fn wf(&self) -> bool {
        self.tabs@.len() > 0 && self.active < self.tabs@.len()
    }

    /// A single tab.
    pub fn new(first: TabSnapshot) -> (r: Tabs)
        ensures
            r.wf(),
            tab_views(r.tabs@) == seq![first@],
            r.active == 0,
    {
        let mut tabs: Vec<TabSnapshot> = Vec::new();
        let ghost v = first@;
        tabs.push(first);
        assert(tab_views(tabs@) =~= seq![v]);
        Tabs { tabs, active: 0 }
    }

    /// Stores the live state of the active tab.
    pub fn sync_active(&mut self, current: TabSnapshot)
        requires
            old(self).wf(),
        ensures
            final(self).wf(),
            final(self).active == old(self).active,
            final(self).tabs@.len() == old(self).tabs@.len(),
            tab_views(final(self).tabs@) == tab_views(old(self).tabs@).update(
                old(self).active as int,
                current@,
            ),
    {
        let ghost v = current@;
        let a = self.active;
        self.tabs.set(a, current);
        assert(tab_views(self.tabs@) =~= tab_views(old(self).tabs@).update(a as int, v));
    }

    /// Opens a new tab at `home` after storing the live state `current` of
    /// the active one; the new tab keeps the sort and hidden-file choice and
    /// becomes active. Returns the snapshot to show.
    pub fn new_tab(&mut self, current: TabSnapshot, home: String) -> (r: TabSnapshot)
        requires
            old(self).wf(),
            old(self).tabs@.len() < usize::MAX,
        ensures
            final(self).wf(),
            r@ == (TabView {
                root: home@,
                query: Seq::empty(),
                search_mode: SearchMode::Filename,
                sort: current.sort,
                selected: 0,
                viewport_start: 0,
                show_hidden: current.show_hidden,
            }),
            tab_views(final(self).tabs@) == tab_views(old(self).tabs@).update(
                old(self).active as int,
                current@,
            ).push(r@),
            final(self).active == old(self).tabs@.len(),
    {
        let sort = current.sort;
        let show_hidden = current.show_hidden;
        self.sync_active(current);
        let snap = TabSnapshot {
            root: home,
            query: String::new(),
            search_mode: SearchMode::Filename,
            sort,
            selected: 0,
            viewport_start: 0,
            show_hidden,
        };
        let copy = snap.duplicate();
        let ghost before = tab_views(self.tabs@);
        self.tabs.push(snap);
        assert(tab_views(self.tabs@) =~= before.push(copy@));
        self.active = self.tabs.len() - 1;
        copy
    }

    /// Closes the active tab unless it is the only one; the tab at the same
    /// position (or the new last one) becomes active. Returns its snapshot.
    pub fn close_tab(&mut self) -> (r: Option<TabSnapshot>)
        requires
            old(self).wf(),
        ensures
            final(self).wf(),
            old(self).tabs@.len() <= 1 ==> r is None && final(self).tabs@ == old(self).tabs@
                && final(self).active == old(self).active,
            old(self).tabs@.len() > 1 ==> {
                &&& tab_views(final(self).tabs@) == tab_views(old(self).tabs@).remove(
                    old(self).active as int,
                )
                &&& final(self).active == if old(self).active + 1 == old(self).tabs@.len() {
                    old(self).active - 1
                } else {
                    old(self).active as int
                }
                &&& r matches Some(t) && t@ == tab_views(final(self).tabs@)[final(self).active as int]
            },
    {
        if self.tabs.len() <= 1 {
            return None;
        }
        let ghost before = tab_views(self.tabs@);
        self.tabs.remove(self.active);
        assert(tab_views(self.tabs@) =~= before.remove(old(self).active as int));
        if self.active >= self.tabs.len() {
            self.active = self.tabs.len() - 1;
        }
        let snap = self.tabs[self.active].duplicate();
        Some(snap)
    }

    /// Makes tab `idx` active after storing the live state `current` of the
    /// active one; nothing happens for the active tab or a missing one.
    /// Returns the snapshot to show.
    pub fn switch_tab(&mut self, idx: usize, current: TabSnapshot) -> (r: Option<TabSnapshot>)
        requires
            old(self).wf(),
        ensures
            final(self).wf(),
            (idx == old(self).active || idx >= old(self).tabs@.len()) ==> r is None
                && final(self).tabs@ == old(self).tabs@ && final(self).active == old(self).active,
            !(idx == old(self).active || idx >= old(self).tabs@.len()) ==> {
                &&& tab_views(final(self).tabs@) == tab_views(old(self).tabs@).update(
                    old(self).active as int,
                    current@,
                )
                &&& final(self).active == idx
                &&& r matches Some(t) && t@ == tab_views(old(self).tabs@)[idx as int]
            },
    {
        if idx == self.active || idx >= self.tabs.len() {
            return None;
        }
        let ghost before = tab_views(self.tabs@);
        self.sync_active(current);
        self.active = idx;
        let snap = self.tabs[idx].duplicate();
        assert(tab_views(self.tabs@)[idx as int] == self.tabs@[idx as int]@);
        assert(tab_views(self.tabs@)[idx as int] == before[idx as int]);
        Some(snap)
    }

    /// Switches to the next tab, wrapping around (see [`Tabs::switch_tab`]).
    pub fn next_tab(&mut self, current: TabSnapshot) -> (r: Option<TabSnapshot>)
        requires
            old(self).wf(),
        ensures
            final(self).wf(),
            old(self).tabs@.len() <= 1 ==> r is None && final(self).tabs@ == old(self).tabs@
                && final(self).active == old(self).active,
            old(self).tabs@.len() > 1 ==> {
                &&& final(self).active == next_index(
                    old(self).active as int,
                    old(self).tabs@.len() as int,
                )
                &&& tab_views(final(self).tabs@) == tab_views(old(self).tabs@).update(
                    old(self).active as int,
                    current@,
                )
                &&& r matches Some(t) && t@ == tab_views(old(self).tabs@)[final(self).active as int]
            },
    {
        let n = self.tabs.len();
        if n <= 1 {
            return None;
        }
        let next = (self.active + 1) % n;
        proof {
            lemma_next_prev(self.active as int, n as int);
        }
        self.switch_tab(next, current)
    }

    /// Switches to the previous tab, wrapping around (see [`Tabs::switch_tab`]).
    pub fn prev_tab(&mut self, current: TabSnapshot) -> (r: Option<TabSnapshot>)
        requires
            old(self).wf(),
        ensures
            final(self).wf(),
            old(self).tabs@.len() <= 1 ==> r is None && final(self).tabs@ == old(self).tabs@
                && final(self).active == old(self).active,
            old(self).tabs@.len() > 1 ==> {
                &&& final(self).active == prev_index(
                    old(self).active as int,
                    old(self).tabs@.len() as int,
                )
                &&& tab_views(final(self).tabs@) == tab_views(old(self).tabs@).update(
                    old(self).active as int,
                    current@,
                )
                &&& r matches Some(t) && t@ == tab_views(old(self).tabs@)[final(self).active as int]
            },
    {
        let n = self.tabs.len();
        if n <= 1 {
            return None;
        }
        let prev = if self.active == 0 {
            n - 1
        } else {
            self.active - 1
        };
        proof {
            lemma_next_prev(self.active as int, n as int);
        }
        self.switch_tab(prev, current)
    }
}

/// Going to the next tab and then to the previous one comes back to the
/// same tab, and the other way round.
pub proof fn lemma_next_prev(a: int, n: int)
    requires
        0 <= a < n,
        n > 1,
    ensures
        prev_index(next_index(a, n), n) == a,
        next_index(prev_index(a, n), n) == a,
        0 <= next_index(a, n) < n,
        next_index(a, n) != a,
        0 <= prev_index(a, n) < n,
        prev_index(a, n) != a,
        prev_index(a, n) == if a == 0 {
            n - 1
        } else {
            a - 1
        },
        next_index(a, n) == if a + 1 == n {
            0
        } else {
            a + 1
        },
{
    assert(next_index(a, n) == if a + 1 == n {
        0
    } else {
        a + 1
    }) by (nonlinear_arith)
        requires
            0 <= a < n,
    ;
    assert(prev_index(a, n) == if a == 0 {
        n - 1
    } else {
        a - 1
    }) by (nonlinear_arith)
        requires
            0 <= a < n,
    ;
    let nx = next_index(a, n);
    let pv = prev_index(a, n);
    assert(prev_index(nx, n) == if nx == 0 {
        n - 1
    } else {
        nx - 1
    }) by (nonlinear_arith)
        requires
            0 <= nx < n,
    ;
    assert(next_index(pv, n) == if pv + 1 == n {
        0
    } else {
        pv + 1
    }) by (nonlinear_arith)
        requires
            0 <= pv < n,
    ;
}

/// Marked result rows, and the row a shift-click range starts from.
pub struct Marks {
    pub marked: BTreeSet<usize>,
    pub last_anchor: usize,
}

impl Marks {
    /// No marks.
    pub fn new() -> (r: Marks)
        ensures
            r.marked@ == Set::<usize>::empty(),
            r.last_anchor == 0,
    {
        Marks { marked: BTreeSet::new(), last_anchor: 0 }
    }

    /// Marks row `i`, or unmarks it if it was marked; it becomes the anchor.
    pub fn toggle_mark(&mut self, i: usize)
        ensures
            final(self).marked@ == if old(self).marked@.contains(i) {
                old(self).marked@.remove(i)
            } else {
                old(self).marked@.insert(i)
            },
            final(self).last_anchor == i,
    {
        broadcast use vstd::std_specs::btree::group_btree_axioms;

        if !self.marked.remove(&i) {
            self.marked.insert(i);
        }
        self.last_anchor = i;
    }

    /// Marks every row between the anchor and `to`, both included.
    pub fn mark_range(&mut self, to: usize)
        ensures
            final(self).marked@ == old(self).marked@.union(
                Set::new(
                    |k: usize|
                        min_of(old(self).last_anchor, to) <= k <= max_of(old(self).last_anchor, to),
                ),
            ),
            final(self).last_anchor == old(self).last_anchor,
    {
        broadcast use vstd::std_specs::btree::group_btree_axioms;

        let (a, b) = if self.last_anchor <= to {
            (self.last_anchor, to)
        } else {
            (to, self.last_anchor)
        };
        let ghost range = Set::new(|k: usize| a <= k <= b);
        let mut i = a;
        while i < b
            invariant
                a <= i <= b,
                self.last_anchor == old(self).last_anchor,
                self.marked@ == old(self).marked@.union(Set::new(|k: usize| a <= k < i)),
            decreases b - i,
        {
            self.marked.insert(i);
            assert(self.marked@ =~= old(self).marked@.union(Set::new(|k: usize| a <= k < i + 1)));
            i += 1;
        }
        self.marked.insert(b);
        assert(self.marked@ =~= old(self).marked@.union(range));
    }

    /// Unmarks every row.
    pub fn clear(&mut self)
        ensures
            final(self).marked@ == Set::<usize>::empty(),
            final(self).last_anchor == old(self).last_anchor,
    {
        self.marked.clear();
    }

    /// Marks exactly the rows `0..count`.
    pub fn select_all(&mut self, count: usize)
        ensures
            final(self).marked@ == Set::new(|k: usize| k < count),
            final(self).last_anchor == old(self).last_anchor,
    {
        broadcast use vstd::std_specs::btree::group_btree_axioms;

        let mut m: BTreeSet<usize> = BTreeSet::new();
        let mut i: usize = 0;
        while i < count
            invariant
                i <= count,
                m@ == Set::new(|k: usize| k < i),
            decreases count - i,
        {
            m.insert(i);
            assert(m@ =~= Set::new(|k: usize| k < i + 1));
            i += 1;
        }
        assert(m@ =~= Set::new(|k: usize| k < count));
        self.marked = m;
    }
}

/// The smaller of two rows.
pub open spec fn min_of(a: usize, b: usize) -> usize {
    if a <= b {
        a
    } else {
        b
    }
}

/// The larger of two rows.
pub open spec fn max_of(a: usize, b: usize) -> usize {
    if a <= b {
        b
    } else {
        a
    }
}

/// Toggling a mark twice restores the marks.
pub proof fn lemma_toggle_mark_twice(s: Set<usize>, i: usize)
    ensures
        ({
            let t = if s.contains(i) {
                s.remove(i)
            } else {
                s.insert(i)
            };
            (if t.contains(i) {
                t.remove(i)
            } else {
                t.insert(i)
            }) == s
        }),
{
    if s.contains(i) {
        assert(s.remove(i).insert(i) =~= s);
    } else {
        assert(s.insert(i).remove(i) =~= s);
    }
}

/// The selected row after moving by `delta` rows among `n`: clamped to the
/// list; no change when the list is empty.
pub fn move_selection(selected: usize, delta: i32, n: usize) -> (r: Option<usize>)
    requires
        n <= i32::MAX as usize + 1,
        selected <= i32::MAX,
        i32::MIN <= selected + delta <= i32::MAX,
    ensures
        n == 0 ==> r is None,
        n > 0 ==> (r matches Some(k) && k as int == if selected + delta < 0 {
            0
        } else if selected + delta > n - 1 {
            n - 1
        } else {
            selected + delta
        }),
{
    if n == 0 {
        return None;
    }
    let target: i32 = selected as i32 + delta;
    let hi: i32 = (n - 1) as i32;
    let v: i32 = if target < 0 {
        0
    } else if target > hi {
        hi
    } else {
        target
    };
    Some(v as usize)
}

/// The selection kept within a list of `len` rows after it shrank.
pub fn clamp_selected(selected: usize, len: usize) -> (r: usize)
    ensures
        r == if selected >= len {
            if len == 0 {
                0
            } else {
                (len - 1) as usize
            }
        } else {
            selected
        },
{
    if selected >= len {
        len.saturating_sub(1)
    } else {
        selected
    }
}

/// `s` without the elements equal to `x`, in order.
pub open spec fn without(s: Seq<Seq<char>>, x: Seq<char>) -> Seq<Seq<char>>
    decreases s.len(),
{
    if s.len() == 0 {
        seq![]
    } else if s.last() == x {
        without(s.drop_last(), x)
    } else {
        without(s.drop_last(), x).push(s.last())
    }
}

/// The recent roots after visiting `root`: `root` first, then the others
/// in their order, at most [`RECENTS_MAX`] in all.
pub open spec fn recents_after(recents: Seq<Seq<char>>, root: Seq<char>) -> Seq<Seq<char>> {
    let all = seq![root] + without(recents, root);
    if all.len() > RECENTS_MAX {
        all.take(RECENTS_MAX as int)
    } else {
        all
    }
}

/// Remembers `root` as the most recent root: it moves to the front, other
/// copies are dropped, and at most [`RECENTS_MAX`] roots are kept.
pub fn push_recent(recents: &mut Vec<String>, root: String)
    ensures
        final(recents)@.map_values(|s: String| s@) == recents_after(
            old(recents)@.map_values(|s: String| s@),
            root@,
        ),
{
    let ghost old_v = recents@.map_values(|s: String| s@);
    let ghost rv = root@;
    let mut out: Vec<String> = Vec::new();
    out.push(root.clone());
    let mut i: usize = 0;
    assert(old_v.take(0) =~= Seq::<Seq<char>>::empty());
    assert(out@.map_values(|s: String| s@) =~= seq![rv] + without(old_v.take(0), rv));
    while i < recents.len()
        invariant
            i <= recents@.len(),
            old_v == recents@.map_values(|s: String| s@),
            recents@ == old(recents)@,
            rv == root@,
            out@.map_values(|s: String| s@) == seq![rv] + without(old_v.take(i as int), rv),
        decreases recents@.len() - i,
    {
        assert(old_v.take(i + 1).drop_last() =~= old_v.take(i as int));
        assert(old_v.take(i + 1).last() == old_v[i as int]);
        let keep = recents[i] != root;
        let ghost before = out@.map_values(|s: String| s@);
        if keep {
            let c = recents[i].clone();
            out.push(c);
            assert(out@.map_values(|s: String| s@) =~= before.push(old_v[i as int]));
        }
        assert(out@.map_values(|s: String| s@) =~= seq![rv] + without(old_v.take(i + 1), rv));
        i += 1;
    }
    assert(old_v.take(recents@.len() as int) =~= old_v);
    let ghost full = out@.map_values(|s: String| s@);
    out.truncate(RECENTS_MAX);
    assert(out@.map_values(|s: String| s@) =~= recents_after(old_v, rv));
    *recents = out;
}

proof fn lemma_without_props(s: Seq<Seq<char>>, x: Seq<char>)
    ensures
        !without(s, x).contains(x),
        s.no_duplicates() ==> without(s, x).no_duplicates(),
        forall|y: Seq<char>| #[trigger] without(s, x).contains(y) ==> s.contains(y),
    decreases s.len(),
{
    if s.len() > 0 {
        lemma_without_props(s.drop_last(), x);
        let w = without(s.drop_last(), x);
        if s.no_duplicates() {
            assert(s.drop_last().no_duplicates());
        }
        assert forall|y: Seq<char>| #[trigger] without(s, x).contains(y) implies s.contains(y) by {
            if w.contains(y) {
                let k = choose|k: int| 0 <= k < w.len() && w[k] == y;
                assert(s.drop_last().contains(y));
                let j = choose|j: int| 0 <= j < s.drop_last().len() && s.drop_last()[j] == y;
                assert(s[j] == y);
            } else {
                assert(y == s.last());
                assert(s[s.len() - 1] == y);
            }
        }
        if s.last() != x {
            let t = w.push(s.last());
            assert(!t.contains(x)) by {
                if t.contains(x) {
                    let k = choose|k: int| 0 <= k < t.len() && t[k] == x;
                    if k < w.len() {
                        assert(w[k] == x);
                    }
                }
            }
            if s.no_duplicates() {
                assert(!w.contains(s.last())) by {
                    if w.contains(s.last()) {
                        assert(s.drop_last().contains(s.last()));
                        let j = choose|j: int| 0 <= j < s.drop_last().len() && s.drop_last()[j] == s.last();
                        assert(s[j] == s[s.len() - 1]);
                    }
                }
            }
        }
    }
}

/// The recent roots start with the visited root, hold it once, stay within
/// [`RECENTS_MAX`], and keep having no duplicates.
pub proof fn lemma_recents(recents: Seq<Seq<char>>, root: Seq<char>)
    requires
        recents.no_duplicates(),
    ensures
        recents_after(recents, root).len() <= RECENTS_MAX,
        recents_after(recents, root)[0] == root,
        recents_after(recents, root).no_duplicates(),
{
    lemma_without_props(recents, root);
    let all = seq![root] + without(recents, root);
    let w = without(recents, root);
    assert(all.no_duplicates()) by {
        assert forall|i: int, j: int| 0 <= i < all.len() && 0 <= j < all.len() && i != j implies all[i] != all[j] by {
            if i == 0 && j > 0 {
                assert(all[j] == w[j - 1]);
            } else if j == 0 && i > 0 {
                assert(all[i] == w[i - 1]);
            } else if i > 0 && j > 0 {
                assert(all[i] == w[i - 1]);
                assert(all[j] == w[j - 1]);
            }
        }
    }
    if all.len() > RECENTS_MAX {
        let t = all.take(RECENTS_MAX as int);
        assert forall|i: int, j: int| 0 <= i < t.len() && 0 <= j < t.len() && i != j implies t[i] != t[j] by {
            assert(t[i] == all[i]);
            assert(t[j] == all[j]);
        }
    }
}

/// Adds `root` to the front of the bookmarks, or removes it if it is
/// bookmarked. Returns whether it was added.
pub fn toggle_bookmark(bookmarks: &mut Vec<String>, root: &String) -> (added: bool)
    ensures
        ({
            let old_v = old(bookmarks)@.map_values(|s: String| s@);
            let new_v = final(bookmarks)@.map_values(|s: String| s@);
            if old_v.contains(root@) {
                !added && exists|k: int|
                    0 <= k < old_v.len() && old_v[k] == root@ && (forall|j: int|
                        0 <= j < k ==> old_v[j] != root@) && new_v == old_v.remove(k)
            } else {
                added && new_v == seq![root@] + old_v
            }
        }),
{
    let ghost old_v = bookmarks@.map_values(|s: String| s@);
    let mut i: usize = 0;
    while i < bookmarks.len()
        invariant
            i <= bookmarks@.len(),
            bookmarks@ == old(bookmarks)@,
            old_v == bookmarks@.map_values(|s: String| s@),
            forall|j: int| 0 <= j < i ==> old_v[j] != root@,
        decreases bookmarks@.len() - i,
    {
        if bookmarks[i] == *root {
            bookmarks.remove(i);
            assert(bookmarks@.map_values(|s: String| s@) =~= old_v.remove(i as int));
            assert(old_v[i as int] == root@);
            assert(old_v.contains(root@));
            return false;
        }
        i += 1;
    }
    assert(!old_v.contains(root@));
    bookmarks.insert(0, root.clone());
    assert(bookmarks@.map_values(|s: String| s@) =~= seq![root@] + old_v);
    true
}

/// The live state of the active tab.
pub struct ViewState {
    pub root: String,
    pub query: String,
    pub search_mode: SearchMode,
    pub sort: SortMode,
    pub selected: usize,
    pub viewport_start: usize,
    pub show_hidden: bool,
    pub marks: Marks,
}

/// What the caller has to do about the content search.
#[derive(PartialEq, Eq, Structural, Clone, Copy, Debug)]
pub enum ContentSearchAction {
    /// Start a content search for the current query.
    Restart,
    /// Cancel the running content search.
    Stop,
    /// Nothing.
    Keep,
}

/// A content search is worth running: the trimmed query has at least two
/// bytes.
pub open spec fn content_search_wanted(query: Seq<char>) -> bool {
    crate::edit::utf8(crate::text::trim(query)).len() >= 2
}

/// Whether the query is long enough for a content search.
pub fn wants_content_search(query: &String) -> (r: bool)
    ensures
        r == content_search_wanted(query@),
{
    let v = crate::text::chars_of(query.as_str());
    let t = crate::text::trim_chars(v.as_slice());
    let s = crate::text::string_from_chars(t.as_slice());
    let st = s.as_str();
    let b = st.as_bytes();
    let n = b.len();
    assert(n == crate::edit::utf8(st@).len());
    n >= 2
}

impl ViewState {
    /// The tab snapshot of the live state.
    pub fn snapshot(&self) -> (r: TabSnapshot)
        ensures
            r@ == (TabView {
                root: self.root@,
                query: self.query@,
                search_mode: self.search_mode,
                sort: self.sort,
                selected: self.selected as nat,
                viewport_start: self.viewport_start as nat,
                show_hidden: self.show_hidden,
            }),
    {
        TabSnapshot {
            root: self.root.clone(),
            query: self.query.clone(),
            search_mode: self.search_mode,
            sort: self.sort,
            selected: self.selected,
            viewport_start: self.viewport_start,
            show_hidden: self.show_hidden,
        }
    }

    /// Shows tab `s`: its state becomes the live state and marks are
    /// cleared. A content-search tab needs its search restarted.
    pub fn restore(&mut self, s: &TabSnapshot) -> (r: bool)
        ensures
            final(self).root@ == s.root@,
            final(self).query@ == s.query@,
            final(self).search_mode == s.search_mode,
            final(self).sort == s.sort,
            final(self).selected == s.selected,
            final(self).viewport_start == s.viewport_start,
            final(self).show_hidden == s.show_hidden,
            final(self).marks.marked@ == Set::<usize>::empty(),
            final(self).marks.last_anchor == 0,
            r == (s.search_mode == SearchMode::Content),
    {
        self.show_hidden = s.show_hidden;
        self.root = s.root.clone();
        self.query = s.query.clone();
        self.search_mode = s.search_mode;
        self.sort = s.sort;
        self.selected = s.selected;
        self.viewport_start = s.viewport_start;
        self.marks.clear();
        self.marks.last_anchor = 0;
        s.search_mode == SearchMode::Content
    }

    /// Browses a new root: the query, marks, selection and scroll position
    /// are reset and file-name search is on.
    pub fn rewalk(&mut self, new_root: String)
        ensures
            final(self).root@ == new_root@,
            final(self).query@ == Seq::<char>::empty(),
            final(self).search_mode == SearchMode::Filename,
            final(self).sort == old(self).sort,
            final(self).selected == 0,
            final(self).viewport_start == 0,
            final(self).show_hidden == old(self).show_hidden,
            final(self).marks.marked@ == Set::<usize>::empty(),
            final(self).marks.last_anchor == 0,
    {
        self.root = new_root;
        self.query = String::new();
        self.search_mode = SearchMode::Filename;
        self.selected = 0;
        self.marks.clear();
        self.marks.last_anchor = 0;
        self.viewport_start = 0;
    }

    /// Goes up to the parent folder of the root, browsing it as [`rewalk`]
    /// does; at a root that has no parent nothing changes. Returns whether
    /// it moved.
    ///
    /// [`rewalk`]: ViewState::rewalk
    pub fn ascend(&mut self) -> (moved: bool)
        ensures
            moved == path_parent(old(self).root@) is Some,
            match path_parent(old(self).root@) {
                Some(p) => {
                    &&& final(self).root@ == p
                    &&& final(self).query@ == Seq::<char>::empty()
                    &&& final(self).search_mode == SearchMode::Filename
                    &&& final(self).sort == old(self).sort
                    &&& final(self).selected == 0
                    &&& final(self).viewport_start == 0
                    &&& final(self).show_hidden == old(self).show_hidden
                    &&& final(self).marks.marked@ == Set::<usize>::empty()
                    &&& final(self).marks.last_anchor == 0
                },
                None => *final(self) == *old(self),
            },
    {
        match parent_of(self.root.as_str()) {
            Some(p) => {
                self.rewalk(p);
                true
            },
            None => false,
        }
    }

    /// Sets the query: selection, scroll position and marks are reset. In
    /// content mode the content search is restarted.
    pub fn update_query(&mut self, q: String) -> (r: bool)
        ensures
            final(self).query@ == q@,
            final(self).root@ == old(self).root@,
            final(self).search_mode == old(self).search_mode,
            final(self).sort == old(self).sort,
            final(self).selected == 0,
            final(self).viewport_start == 0,
            final(self).show_hidden == old(self).show_hidden,
            final(self).marks.marked@ == Set::<usize>::empty(),
            final(self).marks.last_anchor == old(self).marks.last_anchor,
            r == (old(self).search_mode == SearchMode::Content),
    {
        self.query = q;
        self.selected = 0;
        self.viewport_start = 0;
        self.marks.clear();
        self.search_mode == SearchMode::Content
    }

    /// Switches between file-name and content search; selection and scroll
    /// position are reset. Entering content mode restarts the content
    /// search, leaving it stops it.
    pub fn toggle_content_search(&mut self) -> (r: ContentSearchAction)
        ensures
            final(self).search_mode == if old(self).search_mode == SearchMode::Filename {
                SearchMode::Content
            } else {
                SearchMode::Filename
            },
            final(self).selected == 0,
            final(self).viewport_start == 0,
            final(self).query@ == old(self).query@,
            final(self).root@ == old(self).root@,
            final(self).marks.marked@ == old(self).marks.marked@,
            r == if final(self).search_mode == SearchMode::Filename {
                ContentSearchAction::Stop
            } else {
                ContentSearchAction::Restart
            },
    {
        self.search_mode = match self.search_mode {
            SearchMode::Filename => SearchMode::Content,
            SearchMode::Content => SearchMode::Filename,
        };
        self.selected = 0;
        self.viewport_start = 0;
        if self.search_mode == SearchMode::Filename {
            ContentSearchAction::Stop
        } else {
            ContentSearchAction::Restart
        }
    }
}

/// Showing a tab and taking a snapshot of the live state gives the tab back.
pub proof fn lemma_restore_snapshot(v: ViewState, s: TabSnapshot)
    requires
        v.root@ == s.root@,
        v.query@ == s.query@,
        v.search_mode == s.search_mode,
        v.sort == s.sort,
        v.selected == s.selected,
        v.viewport_start == s.viewport_start,
        v.show_hidden == s.show_hidden,
    ensures
        (TabView {
            root: v.root@,
            query: v.query@,
            search_mode: v.search_mode,
            sort: v.sort,
            selected: v.selected as nat,
            viewport_start: v.viewport_start as nat,
            show_hidden: v.show_hidden,
        }) == s@,
{
}

/// The explorer's first state at `root`: one tab, which is active, with an
/// empty file-name query, nothing selected, the sort named in the settings
/// and their hidden-files choice; the live state is that tab's, with no
/// marks.
pub fn initial_view(root: String, settings: &Settings) -> (r: (Tabs, ViewState))
    ensures
        r.0.wf(),
        r.0.active == 0,
        tab_views(r.0.tabs@) == seq![
            TabView {
                root: root@,
                query: Seq::<char>::empty(),
                search_mode: SearchMode::Filename,
                sort: sort_from_label(settings.sort@),
                selected: 0,
                viewport_start: 0,
                show_hidden: settings.show_hidden,
            },
        ],
        r.1.root@ == root@,
        r.1.query@ == Seq::<char>::empty(),
        r.1.search_mode == SearchMode::Filename,
        r.1.sort == sort_from_label(settings.sort@),
        r.1.selected == 0,
        r.1.viewport_start == 0,
        r.1.show_hidden == settings.show_hidden,
        r.1.marks.marked@ == Set::<usize>::empty(),
        r.1.marks.last_anchor == 0,
{
    let sort = SortMode::from_label(settings.sort.as_str());
    let tab = TabSnapshot {
        root: root.clone(),
        query: String::new(),
        search_mode: SearchMode::Filename,
        sort,
        selected: 0,
        viewport_start: 0,
        show_hidden: settings.show_hidden,
    };
    let view = ViewState {
        root,
        query: String::new(),
        search_mode: SearchMode::Filename,
        sort,
        selected: 0,
        viewport_start: 0,
        show_hidden: settings.show_hidden,
        marks: Marks::new(),
    };
    (Tabs::new(tab), view)
}

} // verus!
