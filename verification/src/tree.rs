//! The folder tree beside the results: nodes that open and close, their
//! children listed on first opening (folders first, then by name, hidden
//! entries left out), and the rows the pane shows.
//!
//! Listing a folder is the caller's; a listing is a sequence of entries,
//! each its name, its path and whether it is a folder.

use crate::paths::{paths_equal, same_place};
use crate::sorting::{text_lt, lemma_text_irreflexive, lemma_text_total, lemma_text_transitive};
use crate::text::chars_of;
use vstd::prelude::*;

verus! {

/// A node of the folder tree.
pub struct TreeNode {
    pub path: String,
    pub is_dir: bool,
    pub expanded: bool,
    /// The children, once listed.
    pub children: Option<Vec<TreeNode>>,
}

/// The contents of a tree node.
pub struct TreeView {
    pub path: Seq<char>,
    pub is_dir: bool,
    pub expanded: bool,
    pub children: Option<Seq<TreeView>>,
}

/// The contents of a node, its children's included.
pub open spec fn tree_view(n: TreeNode) -> TreeView
    decreases n,
{
    TreeView {
        path: n.path@,
        is_dir: n.is_dir,
        expanded: n.expanded,
        children: match n.children {
            Some(v) => Some(nodes_view(v@)),
            None => None,
        },
    }
}

/// The contents of a list of nodes.
pub open spec fn nodes_view(cs: Seq<TreeNode>) -> Seq<TreeView>
    decreases cs,
{
    if cs.len() == 0 {
        seq![]
    } else {
        nodes_view(cs.drop_last()).push(tree_view(cs.last()))
    }
}

/// A row of the tree pane: depth, path, whether it is a folder, whether it
/// is open.
pub open spec fn row_of(t: TreeView, depth: nat) -> (nat, Seq<char>, bool, bool) {
    (depth, t.path, t.is_dir, t.expanded)
}

/// The rows of a tree: the node, then, when it is open, the rows of its
/// listed children one level deeper.
pub open spec fn flatten_spec(t: TreeView, depth: nat) -> Seq<(nat, Seq<char>, bool, bool)>
    decreases t,
{
    seq![row_of(t, depth)] + if t.expanded {
        match t.children {
            Some(cs) => flatten_list(cs, depth + 1),
            None => seq![],
        }
    } else {
        seq![]
    }
}

/// The rows of a list of trees, one after the other.
pub open spec fn flatten_list(cs: Seq<TreeView>, depth: nat) -> Seq<(nat, Seq<char>, bool, bool)>
    decreases cs,
{
    if cs.len() == 0 {
        seq![]
    } else {
        flatten_list(cs.drop_last(), depth) + flatten_spec(cs.last(), depth)
    }
}

/// How many levels a tree has.
pub open spec fn tree_depth(t: TreeView) -> nat
    decreases t,
{
    1 + match t.children {
        Some(cs) => list_depth(cs),
        None => 0,
    }
}

/// The most levels among a list of trees.
pub open spec fn list_depth(cs: Seq<TreeView>) -> nat
    decreases cs,
{
    if cs.len() == 0 {
        0
    } else {
        let a = list_depth(cs.drop_last());
        let b = tree_depth(cs.last());
        if a >= b {
            a
        } else {
            b
        }
    }
}

proof fn lemma_list_depth(cs: Seq<TreeView>, i: int)
    requires
        0 <= i < cs.len(),
    ensures
        tree_depth(cs[i]) <= list_depth(cs),
    decreases cs.len(),
{
    if i < cs.len() - 1 {
        lemma_list_depth(cs.drop_last(), i);
    }
}

proof fn lemma_nodes_view(cs: Seq<TreeNode>)
    ensures
        nodes_view(cs).len() == cs.len(),
        forall|i: int| 0 <= i < cs.len() ==> #[trigger] nodes_view(cs)[i] == tree_view(cs[i]),
    decreases cs.len(),
{
    if cs.len() > 0 {
        lemma_nodes_view(cs.drop_last());
    }
}

/// Rows by their views.
pub open spec fn rows_view(v: Seq<(usize, String, bool, bool)>) -> Seq<(nat, Seq<char>, bool, bool)> {
    v.map_values(|r: (usize, String, bool, bool)| (r.0 as nat, r.1@, r.2, r.3))
}

/// An entry of a folder listing: its name, its path and whether it is a
/// folder.
pub struct Listed {
    pub name: String,
    pub path: String,
    pub is_dir: bool,
}

/// Whether the tree shows an entry: not when its name starts with `.`.
pub open spec fn shown_in_tree(name: Seq<char>) -> bool {
    !(name.len() > 0 && name[0] == '.')
}

/// The entries the tree shows, in listing order.
pub open spec fn kept_entries(es: Seq<Listed>) -> Seq<Listed>
    decreases es.len(),
{
    if es.len() == 0 {
        seq![]
    } else if shown_in_tree(es.last().name@) {
        kept_entries(es.drop_last()).push(es.last())
    } else {
        kept_entries(es.drop_last())
    }
}

/// The tree's order of entries: folders before files, then by name.
pub open spec fn tree_before(a: (bool, Seq<char>), b: (bool, Seq<char>)) -> bool {
    (a.0 && !b.0) || (a.0 == b.0 && text_lt(a.1, b.1))
}

proof fn lemma_tree_order(a: (bool, Seq<char>), b: (bool, Seq<char>), c: (bool, Seq<char>))
    ensures
        !tree_before(a, a),
        a != b ==> (tree_before(a, b) || tree_before(b, a)),
        !(tree_before(a, b) && tree_before(b, a)),
        tree_before(a, b) && tree_before(b, c) ==> tree_before(a, c),
{
    lemma_text_irreflexive(a.1);
    lemma_text_total(a.1, b.1);
    if text_lt(a.1, b.1) && text_lt(b.1, c.1) {
        lemma_text_transitive(a.1, b.1, c.1);
    }
    if a.0 == b.0 && a.1 == b.1 {
        assert(a == b);
    }
}

/// The sort key of an entry.
pub open spec fn tree_key(e: Listed) -> (bool, Seq<char>) {
    (e.is_dir, e.name@)
}

/// The order puts entries in the tree's order, equal keys in their old
/// order.
pub open spec fn stable_tree(o: Seq<usize>, keys: Seq<(bool, Seq<char>)>) -> bool {
    &&& forall|a: int, b: int|
        0 <= a < b < o.len() ==> !tree_before(keys[o[b] as int], keys[o[a] as int])
    &&& forall|a: int, b: int|
        0 <= a < b < o.len() && keys[o[a] as int] == keys[o[b] as int] ==> o[a] < o[b]
}

/// `tree_before` on keys held as a flag and characters.
fn key_before(a: &(bool, Vec<char>), b: &(bool, Vec<char>)) -> (r: bool)
    ensures
        r == tree_before((a.0, a.1@), (b.0, b.1@)),
{
    if a.0 && !b.0 {
        true
    } else if a.0 == b.0 {
        crate::sorting::text_less(&a.1, &b.1)
    } else {
        false
    }
}

/// Keys by their views.
pub open spec fn key_views(v: Seq<(bool, Vec<char>)>) -> Seq<(bool, Seq<char>)> {
    v.map_values(|k: (bool, Vec<char>)| (k.0, k.1@))
}

/// The positions of the keys in the tree's order, ties in their old order.
fn order_by_tree_key(keys: &Vec<(bool, Vec<char>)>) -> (r: Vec<usize>)
    ensures
        crate::sorting::is_permutation(r@, keys@.len()),
        stable_tree(r@, key_views(keys@)),
{
    let ghost kv = key_views(keys@);
    let n = keys.len();
    let mut o: Vec<usize> = Vec::new();
    let mut i: usize = 0;
    while i < n
        invariant
            n == keys@.len(),
            kv == key_views(keys@),
            i <= n,
            crate::sorting::is_permutation(o@, i as nat),
            stable_tree(o@, kv),
        decreases n - i,
    {
        let mut p: usize = 0;
        while p < o.len() && !key_before(&keys[i], &keys[o[p]])
            invariant
                n == keys@.len(),
                kv == key_views(keys@),
                i < n,
                p <= o@.len(),
                crate::sorting::is_permutation(o@, i as nat),
                forall|q: int| 0 <= q < p ==> !tree_before(kv[i as int], kv[#[trigger] o@[q] as int]),
            decreases o@.len() - p,
        {
            p += 1;
        }
        let ghost old_o = o@;
        let ghost ki = kv[i as int];
        o.insert(p, i);
        proof {
            assert(o@ == old_o.insert(p as int, i));
            assert forall|k: int| 0 <= k < o@.len() implies #[trigger] o@[k] < i + 1 by {
                if k > p {
                    assert(o@[k] == old_o[k - 1]);
                }
            }
            assert forall|a: int, b: int| 0 <= a < b < o@.len() implies o@[a] != o@[b] by {
                if a < p && b < p {
                } else if a < p && b == p {
                    assert(old_o[a] < i);
                } else if a < p && b > p {
                    assert(o@[b] == old_o[b - 1]);
                } else if a == p {
                    assert(o@[b] == old_o[b - 1]);
                    assert(old_o[b - 1] < i);
                } else {
                    assert(o@[a] == old_o[a - 1]);
                    assert(o@[b] == old_o[b - 1]);
                }
            }
            assert forall|a: int, b: int| 0 <= a < b < o@.len() implies !tree_before(
                kv[o@[b] as int],
                kv[o@[a] as int],
            ) && (kv[o@[a] as int] == kv[o@[b] as int] ==> o@[a] < o@[b]) by {
                if b < p {
                } else if b == p {
                    assert(!tree_before(ki, kv[old_o[a] as int]));
                    assert(old_o[a] < i);
                } else if a < p {
                    assert(o@[b] == old_o[b - 1]);
                } else if a == p {
                    let x = kv[old_o[p as int] as int];
                    let y = kv[old_o[b - 1] as int];
                    assert(o@[b] == old_o[b - 1]);
                    assert(tree_before(ki, x));
                    if p < b - 1 {
                        assert(!tree_before(y, x));
                    } else {
                        lemma_tree_order(x, x, x);
                    }
                    lemma_tree_order(ki, x, y);
                    lemma_tree_order(y, ki, x);
                    lemma_tree_order(ki, y, x);
                    lemma_tree_order(x, y, ki);
                    lemma_tree_order(y, x, ki);
                    if x != y {
                        assert(tree_before(x, y));
                    }
                    assert(tree_before(ki, y));
                } else {
                    assert(o@[a] == old_o[a - 1]);
                    assert(o@[b] == old_o[b - 1]);
                }
            }
        }
        i += 1;
    }
    o
}

/// A closed, unlisted node for an entry.
pub open spec fn leaf_view(e: Listed) -> TreeView {
    TreeView { path: e.path@, is_dir: e.is_dir, expanded: false, children: None }
}

/// The children a listing gives: the shown entries as closed nodes,
/// folders first, then by name, entries that compare equal in listing
/// order.
pub open spec fn listed_children(es: Seq<Listed>, cs: Seq<TreeView>) -> bool {
    let kept = kept_entries(es);
    exists|o: Seq<usize>|
        #![trigger crate::sorting::is_permutation(o, kept.len())]
        crate::sorting::is_permutation(o, kept.len()) && stable_tree(
            o,
            kept.map_values(|e: Listed| tree_key(e)),
        ) && cs.len() == o.len() && forall|k: int|
            0 <= k < o.len() ==> #[trigger] cs[k] == leaf_view(kept[o[k] as int])
}

/// The node the tree reaches first, in order (a node before its children,
/// children in their order), whose path names the same place as `target`.
pub open spec fn find_spec(t: TreeView, target: Seq<char>) -> Option<TreeView>
    decreases t,
{
    if same_place(t.path, target) {
        Some(t)
    } else {
        match t.children {
            Some(cs) => find_list(cs, target),
            None => None,
        }
    }
}

/// The first node found in a list of trees, in order.
pub open spec fn find_list(cs: Seq<TreeView>, target: Seq<char>) -> Option<TreeView>
    decreases cs,
{
    if cs.len() == 0 {
        None
    } else {
        proof {
            assert(decreases_to!(cs => cs.drop_first()));
        }
        match find_spec(cs[0], target) {
            Some(n) => Some(n),
            None => find_list(cs.drop_first(), target),
        }
    }
}

/// Toggling a tree at `target`: the first node found (see [`find_spec`])
/// opens when closed and closes when open, if it is a folder; a closed
/// folder whose children are not listed takes `listed` as its children
/// on opening. The flag says whether a node was found.
pub open spec fn toggle_spec(t: TreeView, target: Seq<char>, is_dir: bool, listed: Seq<TreeView>) -> (
    TreeView,
    bool,
)
    decreases t,
{
    if same_place(t.path, target) {
        if is_dir {
            let children = if !t.expanded && t.children is None {
                Some(listed)
            } else {
                t.children
            };
            (TreeView { expanded: !t.expanded, children, ..t }, true)
        } else {
            (t, true)
        }
    } else {
        match t.children {
            Some(cs) => {
                let r = toggle_list(cs, target, is_dir, listed);
                (TreeView { children: Some(r.0), ..t }, r.1)
            },
            None => (t, false),
        }
    }
}

/// Toggling a list of trees: the first tree in which the target is found.
pub open spec fn toggle_list(cs: Seq<TreeView>, target: Seq<char>, is_dir: bool, listed: Seq<TreeView>) -> (
    Seq<TreeView>,
    bool,
)
    decreases cs,
{
    if cs.len() == 0 {
        (cs, false)
    } else {
        proof {
            assert(decreases_to!(cs => cs.drop_first()));
        }
        let h = toggle_spec(cs[0], target, is_dir, listed);
        if h.1 {
            (cs.update(0, h.0), true)
        } else {
            let r = toggle_list(cs.drop_first(), target, is_dir, listed);
            (seq![cs[0]] + r.0, r.1)
        }
    }
}

/// Where the target is not found, toggling changes nothing.
pub proof fn lemma_toggle_unchanged(t: TreeView, target: Seq<char>, is_dir: bool, listed: Seq<TreeView>)
    ensures
        !toggle_spec(t, target, is_dir, listed).1 ==> toggle_spec(t, target, is_dir, listed).0 == t,
        toggle_spec(t, target, is_dir, listed).1 == (find_spec(t, target) is Some),
    decreases t,
{
    if !same_place(t.path, target) {
        if let Some(cs) = t.children {
            lemma_toggle_list_unchanged(cs, target, is_dir, listed);
        }
    }
}

/// [`lemma_toggle_unchanged`] for a list of trees.
pub proof fn lemma_toggle_list_unchanged(cs: Seq<TreeView>, target: Seq<char>, is_dir: bool, listed: Seq<TreeView>)
    ensures
        !toggle_list(cs, target, is_dir, listed).1 ==> toggle_list(cs, target, is_dir, listed).0 == cs,
        toggle_list(cs, target, is_dir, listed).1 == (find_list(cs, target) is Some),
    decreases cs,
{
    if cs.len() > 0 {
        assert(decreases_to!(cs => cs.drop_first()));
        lemma_toggle_unchanged(cs[0], target, is_dir, listed);
        lemma_toggle_list_unchanged(cs.drop_first(), target, is_dir, listed);
        if !toggle_list(cs, target, is_dir, listed).1 {
            assert(seq![cs[0]] + cs.drop_first() =~= cs);
        }
    }
}

/// Every open node of the tree has its children listed.
pub open spec fn open_listed(t: TreeView) -> bool
    decreases t,
{
    &&& t.expanded ==> t.children is Some
    &&& match t.children {
        Some(cs) => open_listed_list(cs),
        None => true,
    }
}

/// [`open_listed`] for each tree of a list.
pub open spec fn open_listed_list(cs: Seq<TreeView>) -> bool
    decreases cs,
{
    if cs.len() == 0 {
        true
    } else {
        proof {
            assert(decreases_to!(cs => cs.drop_first()));
        }
        open_listed(cs[0]) && open_listed_list(cs.drop_first())
    }
}

proof fn lemma_open_listed_each(cs: Seq<TreeView>)
    requires
        forall|k: int| 0 <= k < cs.len() ==> #[trigger] open_listed(cs[k]),
    ensures
        open_listed_list(cs),
    decreases cs.len(),
{
    if cs.len() > 0 {
        let rest = cs.drop_first();
        assert forall|k: int| 0 <= k < rest.len() implies #[trigger] open_listed(rest[k]) by {
            assert(rest[k] == cs[k + 1]);
        }
        lemma_open_listed_each(rest);
        assert(open_listed(cs[0]));
    }
}

/// Children listed from a folder are closed and unlisted, so every open
/// node among them has its children listed.
pub proof fn lemma_listed_children_open_listed(es: Seq<Listed>, cs: Seq<TreeView>)
    requires
        listed_children(es, cs),
    ensures
        open_listed_list(cs),
{
    let kept = kept_entries(es);
    let o = choose|o: Seq<usize>|
        #![trigger crate::sorting::is_permutation(o, kept.len())]
        crate::sorting::is_permutation(o, kept.len()) && stable_tree(
            o,
            kept.map_values(|e: Listed| tree_key(e)),
        ) && cs.len() == o.len() && forall|k: int|
            0 <= k < o.len() ==> #[trigger] cs[k] == leaf_view(kept[o[k] as int]);
    assert forall|k: int| 0 <= k < cs.len() implies #[trigger] open_listed(cs[k]) by {
        assert(cs[k] == leaf_view(kept[o[k] as int]));
    }
    lemma_open_listed_each(cs);
}

proof fn lemma_flatten_cons(a: TreeView, rest: Seq<TreeView>, depth: nat)
    ensures
        flatten_list(seq![a] + rest, depth) == flatten_spec(a, depth) + flatten_list(rest, depth),
    decreases rest.len(),
{
    let s = seq![a] + rest;
    if rest.len() == 0 {
        assert(s.drop_last() =~= Seq::<TreeView>::empty());
        assert(s =~= seq![a]);
        assert(s.last() == a);
        assert(flatten_list(s.drop_last(), depth) == Seq::<(nat, Seq<char>, bool, bool)>::empty());
        assert(flatten_list(rest, depth) == Seq::<(nat, Seq<char>, bool, bool)>::empty());
        assert(flatten_list(s, depth) =~= flatten_spec(a, depth) + flatten_list(rest, depth));
    } else {
        assert(s.drop_last() =~= seq![a] + rest.drop_last());
        assert(s.last() == rest.last());
        lemma_flatten_cons(a, rest.drop_last(), depth);
        assert(flatten_list(s, depth) =~= flatten_spec(a, depth) + flatten_list(rest, depth));
    }
}

/// Toggling keeps every open node's children listed, when the listing it
/// may take holds only such nodes.
pub proof fn lemma_toggle_keeps_open_listed(t: TreeView, target: Seq<char>, is_dir: bool, listed: Seq<TreeView>)
    requires
        open_listed(t),
        open_listed_list(listed),
    ensures
        open_listed(toggle_spec(t, target, is_dir, listed).0),
    decreases t,
{
    if !same_place(t.path, target) {
        if let Some(cs) = t.children {
            lemma_toggle_list_keeps_open_listed(cs, target, is_dir, listed);
        }
    }
}

/// [`lemma_toggle_keeps_open_listed`] for a list of trees.
pub proof fn lemma_toggle_list_keeps_open_listed(
    cs: Seq<TreeView>,
    target: Seq<char>,
    is_dir: bool,
    listed: Seq<TreeView>,
)
    requires
        open_listed_list(cs),
        open_listed_list(listed),
    ensures
        open_listed_list(toggle_list(cs, target, is_dir, listed).0),
    decreases cs,
{
    if cs.len() > 0 {
        assert(decreases_to!(cs => cs.drop_first()));
        lemma_toggle_keeps_open_listed(cs[0], target, is_dir, listed);
        lemma_toggle_list_keeps_open_listed(cs.drop_first(), target, is_dir, listed);
        let h = toggle_spec(cs[0], target, is_dir, listed);
        let r = toggle_list(cs, target, is_dir, listed).0;
        if h.1 {
            assert(r.drop_first() =~= cs.drop_first());
        } else {
            assert((seq![cs[0]] + toggle_list(cs.drop_first(), target, is_dir, listed).0).drop_first()
                =~= toggle_list(cs.drop_first(), target, is_dir, listed).0);
        }
    }
}

/// Toggling a folder twice at one target, in a tree whose open nodes have
/// their children listed, finds the same node both times and leaves the
/// pane's rows as they were, whatever the second listing holds.
pub proof fn lemma_toggle_twice(
    t: TreeView,
    target: Seq<char>,
    first: Seq<TreeView>,
    second: Seq<TreeView>,
    depth: nat,
)
    requires
        open_listed(t),
    ensures
        toggle_spec(toggle_spec(t, target, true, first).0, target, true, second).1 == toggle_spec(
            t,
            target,
            true,
            first,
        ).1,
        flatten_spec(toggle_spec(toggle_spec(t, target, true, first).0, target, true, second).0, depth)
            == flatten_spec(t, depth),
    decreases t,
{
    if !same_place(t.path, target) {
        if let Some(cs) = t.children {
            lemma_toggle_list_twice(cs, target, first, second, depth + 1);
        }
    }
}

/// [`lemma_toggle_twice`] for a list of trees.
pub proof fn lemma_toggle_list_twice(
    cs: Seq<TreeView>,
    target: Seq<char>,
    first: Seq<TreeView>,
    second: Seq<TreeView>,
    depth: nat,
)
    requires
        open_listed_list(cs),
    ensures
        toggle_list(toggle_list(cs, target, true, first).0, target, true, second).1 == toggle_list(
            cs,
            target,
            true,
            first,
        ).1,
        flatten_list(toggle_list(toggle_list(cs, target, true, first).0, target, true, second).0, depth)
            == flatten_list(cs, depth),
    decreases cs,
{
    if cs.len() > 0 {
        assert(decreases_to!(cs => cs.drop_first()));
        let rest = cs.drop_first();
        assert(cs =~= seq![cs[0]] + rest);
        lemma_toggle_twice(cs[0], target, first, second, depth);
        lemma_toggle_unchanged(cs[0], target, true, first);
        lemma_toggle_unchanged(cs[0], target, true, second);
        let h = toggle_spec(cs[0], target, true, first);
        let r = toggle_list(cs, target, true, first).0;
        if h.1 {
            let h2 = toggle_spec(h.0, target, true, second);
            assert(r[0] == h.0);
            assert(r.drop_first() =~= rest);
            assert(r.update(0, h2.0) =~= seq![h2.0] + rest);
            lemma_flatten_cons(h2.0, rest, depth);
            lemma_flatten_cons(cs[0], rest, depth);
        } else {
            lemma_toggle_list_twice(rest, target, first, second, depth);
            let r1 = toggle_list(rest, target, true, first).0;
            assert(r == seq![cs[0]] + r1);
            assert(r[0] == cs[0]);
            assert(r.drop_first() =~= r1);
            let r2 = toggle_list(r1, target, true, second).0;
            lemma_flatten_cons(cs[0], r2, depth);
            lemma_flatten_cons(cs[0], rest, depth);
        }
    }
}

/// The children listed from a folder listing (see [`listed_children`]).
fn listed_nodes(listing: &Vec<Listed>) -> (r: Vec<TreeNode>)
    ensures
        listed_children(listing@, nodes_view(r@)),
{
    let ghost kept = kept_entries(listing@);
    let (idx, keys) = kept_with_keys(listing);
    let order = order_by_tree_key(&keys);
    let mut out: Vec<TreeNode> = Vec::new();
    let mut k: usize = 0;
    while k < order.len()
        invariant
            k <= order@.len(),
            crate::sorting::is_permutation(order@, keys@.len() as nat),
            idx@.len() == keys@.len() == kept.len(),
            kept == kept_entries(listing@),
            forall|j: int|
                0 <= j < idx@.len() ==> #[trigger] idx@[j] < listing@.len() && listing@[idx@[j] as int]
                    == kept[j],
            out@.len() == k,
            forall|j: int| 0 <= j < k ==> #[trigger] tree_view(out@[j]) == leaf_view(kept[order@[j] as int]),
        decreases order@.len() - k,
    {
        let e = &listing[idx[order[k]]];
        out.push(TreeNode::new(e.path.clone(), e.is_dir));
        k += 1;
    }
    proof {
        lemma_nodes_view(out@);
        let cs = nodes_view(out@);
        assert(crate::sorting::is_permutation(order@, kept.len()));
        assert(forall|j: int| 0 <= j < order@.len() ==> #[trigger] cs[j] == leaf_view(kept[order@[j] as int]));
    }
    out
}

/// The entries the tree shows, with their keys.
fn kept_with_keys(listing: &Vec<Listed>) -> (r: (Vec<usize>, Vec<(bool, Vec<char>)>))
    ensures
        r.0@.len() == r.1@.len() == kept_entries(listing@).len(),
        forall|k: int|
            0 <= k < r.0@.len() ==> #[trigger] r.0@[k] < listing@.len() && listing@[r.0@[k] as int]
                == kept_entries(listing@)[k],
        key_views(r.1@) == kept_entries(listing@).map_values(|e: Listed| tree_key(e)),
{
    let mut idx: Vec<usize> = Vec::new();
    let mut keys: Vec<(bool, Vec<char>)> = Vec::new();
    let mut i: usize = 0;
    assert(listing@.take(0) =~= Seq::<Listed>::empty());
    while i < listing.len()
        invariant
            i <= listing@.len(),
            idx@.len() == keys@.len() == kept_entries(listing@.take(i as int)).len(),
            forall|k: int|
                0 <= k < idx@.len() ==> #[trigger] idx@[k] < i && listing@[idx@[k] as int]
                    == kept_entries(listing@.take(i as int))[k],
            key_views(keys@) == kept_entries(listing@.take(i as int)).map_values(
                |e: Listed| tree_key(e),
            ),
        decreases listing@.len() - i,
    {
        let ghost pre = listing@.take(i as int);
        assert(listing@.take(i + 1).drop_last() =~= pre);
        assert(listing@.take(i + 1).last() == listing@[i as int]);
        let name = chars_of(listing[i].name.as_str());
        if !(name.len() > 0 && name[0] == '.') {
            let ghost before_keys = key_views(keys@);
            idx.push(i);
            keys.push((listing[i].is_dir, name));
            proof {
                let kept1 = kept_entries(listing@.take(i + 1));
                assert(kept1 == kept_entries(pre).push(listing@[i as int]));
                assert(key_views(keys@) =~= before_keys.push(tree_key(listing@[i as int])));
                assert(kept1.map_values(|e: Listed| tree_key(e)) =~= kept_entries(pre).map_values(
                    |e: Listed| tree_key(e),
                ).push(tree_key(listing@[i as int])));
                assert forall|k: int| 0 <= k < idx@.len() implies #[trigger] idx@[k] < i + 1
                    && listing@[idx@[k] as int] == kept1[k] by {
                    if k < idx@.len() - 1 {
                        assert(kept1[k] == kept_entries(pre)[k]);
                    }
                }
            }
        }
        i += 1;
    }
    assert(listing@.take(listing@.len() as int) =~= listing@);
    (idx, keys)
}

impl TreeNode {
    /// A closed node whose children are not listed yet.
    pub fn new(path: String, is_dir: bool) -> (r: TreeNode)
        ensures
            tree_view(r) == (TreeView { path: path@, is_dir, expanded: false, children: None }),
    {
        TreeNode { path, is_dir, expanded: false, children: None }
    }

    /// Lists the node's children from `listing`, unless they are listed
    /// already (see [`listed_children`]).
    pub fn load_children(&mut self, listing: &Vec<Listed>)
        ensures
            final(self).path@ == old(self).path@,
            final(self).is_dir == old(self).is_dir,
            final(self).expanded == old(self).expanded,
            old(self).children is Some ==> tree_view(*final(self)) == tree_view(*old(self)),
            old(self).children is None ==> (tree_view(*final(self)).children matches Some(cs)
                && listed_children(listing@, cs)),
    {
        if self.children.is_some() {
            return;
        }
        self.children = Some(listed_nodes(listing));
    }

    /// The node the tree reaches first, in order, whose path names the same
    /// place as `target`.
    pub fn needs_listing(&self, target: &str) -> (r: bool)
        ensures
            r == (match find_spec(tree_view(*self), target@) {
                Some(n) => !n.expanded && n.children is None,
                None => false,
            }),
        decreases self,
    {
        let ghost t = tree_view(*self);
        if paths_equal(self.path.as_str(), target) {
            return !self.expanded && self.children.is_none();
        }
        match &self.children {
            None => false,
            Some(kids) => {
                let ghost cs = nodes_view(kids@);
                proof {
                    lemma_nodes_view(kids@);
                }
                assert(cs.skip(0) =~= cs);
                let mut i: usize = 0;
                while i < kids.len()
                    invariant
                        i <= kids@.len(),
                        cs == nodes_view(kids@),
                        cs.len() == kids@.len(),
                        forall|k: int| 0 <= k < kids@.len() ==> #[trigger] cs[k] == tree_view(kids@[k]),
                        self.children == Some(*kids),
                        t == tree_view(*self),
                        !same_place(t.path, target@),
                        find_list(cs, target@) == find_list(cs.skip(i as int), target@),
                    decreases kids@.len() - i,
                {
                    proof {
                        assert(decreases_to!(*self => self.children));
                        assert(decreases_to!(self.children => *kids));
                        assert(decreases_to!(*kids => kids@));
                        assert(decreases_to!(kids@ => kids@[i as int]));
                        assert(cs.skip(i as int)[0] == cs[i as int]);
                        assert(cs.skip(i as int).drop_first() =~= cs.skip(i + 1));
                    }
                    if kids[i].is_target(target) {
                        return kids[i].needs_listing(target);
                    }
                    i += 1;
                }
                assert(cs.skip(i as int) =~= Seq::<TreeView>::empty());
                false
            },
        }
    }

    /// Whether the tree holds a node whose path names the same place as
    /// `target`.
    pub fn is_target(&self, target: &str) -> (r: bool)
        ensures
            r == find_spec(tree_view(*self), target@) is Some,
        decreases self,
    {
        if paths_equal(self.path.as_str(), target) {
            return true;
        }
        match &self.children {
            None => false,
            Some(kids) => {
                let ghost cs = nodes_view(kids@);
                proof {
                    lemma_nodes_view(kids@);
                }
                assert(cs.skip(0) =~= cs);
                let mut i: usize = 0;
                while i < kids.len()
                    invariant
                        i <= kids@.len(),
                        cs == nodes_view(kids@),
                        cs.len() == kids@.len(),
                        forall|k: int| 0 <= k < kids@.len() ==> #[trigger] cs[k] == tree_view(kids@[k]),
                        self.children == Some(*kids),
                        !same_place(self.path@, target@),
                        find_list(cs, target@) == find_list(cs.skip(i as int), target@),
                    decreases kids@.len() - i,
                {
                    proof {
                        assert(decreases_to!(*self => self.children));
                        assert(decreases_to!(self.children => *kids));
                        assert(decreases_to!(*kids => kids@));
                        assert(decreases_to!(kids@ => kids@[i as int]));
                        assert(cs.skip(i as int)[0] == cs[i as int]);
                        assert(cs.skip(i as int).drop_first() =~= cs.skip(i + 1));
                    }
                    if kids[i].is_target(target) {
                        return true;
                    }
                    i += 1;
                }
                assert(cs.skip(i as int) =~= Seq::<TreeView>::empty());
                false
            },
        }
    }

    /// Opens or closes the node the tree reaches first whose path names the
    /// same place as `target`, when `target_is_dir`; opening a node whose
    /// children are not listed lists them from `listing`. Returns whether
    /// such a node was found.
    pub fn toggle_at(&mut self, target: &str, target_is_dir: bool, listing: &Vec<Listed>) -> (found: bool)
        ensures
            exists|cs: Seq<TreeView>|
                #![trigger listed_children(listing@, cs)]
                listed_children(listing@, cs) && (tree_view(*final(self)), found) == toggle_spec(
                    tree_view(*old(self)),
                    target@,
                    target_is_dir,
                    cs,
                ),
    {
        let mut fresh = Some(listed_nodes(listing));
        let ghost cs = nodes_view(fresh.unwrap()@);
        let found = self.toggle_inner(target, target_is_dir, &mut fresh);
        assert(listed_children(listing@, cs));
        found
    }

    fn toggle_inner(&mut self, target: &str, is_dir: bool, fresh: &mut Option<Vec<TreeNode>>) -> (found: bool)
        requires
            old(fresh).is_some(),
        ensures
            (tree_view(*final(self)), found) == toggle_spec(
                tree_view(*old(self)),
                target@,
                is_dir,
                nodes_view(old(fresh).unwrap()@),
            ),
            !found ==> *final(fresh) == *old(fresh),
        decreases *old(self),
    {
        let ghost listed = nodes_view(fresh.unwrap()@);
        if paths_equal(self.path.as_str(), target) {
            if is_dir {
                if !self.expanded && self.children.is_none() {
                    self.children = fresh.take();
                }
                self.expanded = !self.expanded;
            }
            return true;
        }
        let ghost t = tree_view(*self);
        let mut kids = match self.children.take() {
            Some(k) => k,
            None => {
                return false;
            },
        };
        let ghost orig_v = kids;
        let ghost orig = kids@;
        let ghost cs = nodes_view(orig);
        proof {
            lemma_nodes_view(orig);
            assert(t.children == Some(cs));
        }
        assert(cs.skip(0) =~= cs);
        assert(cs.take(0) + toggle_list(cs, target@, is_dir, listed).0 =~= toggle_list(cs, target@, is_dir, listed).0);
        assert(old(self).children == Some(orig_v));
        let mut i: usize = 0;
        let mut found = false;
        while i < kids.len() && !found
            invariant
                i <= kids@.len() == orig.len(),
                cs == nodes_view(orig),
                cs.len() == orig.len(),
                old(self).children == Some(orig_v),
                orig == orig_v@,
                forall|k: int| 0 <= k < orig.len() ==> #[trigger] cs[k] == tree_view(orig[k]),
                forall|k: int| i < k < orig.len() ==> #[trigger] kids@[k] == orig[k],
                !found ==> forall|k: int| i <= k < orig.len() ==> #[trigger] kids@[k] == orig[k],
                old(fresh).is_some(),
                !found ==> forall|k: int| 0 <= k < i ==> #[trigger] tree_view(kids@[k]) == cs[k],
                !found ==> *fresh == *old(fresh),
                !found ==> toggle_list(cs, target@, is_dir, listed) == (cs.take(i as int) + toggle_list(
                    cs.skip(i as int),
                    target@,
                    is_dir,
                    listed,
                ).0, toggle_list(cs.skip(i as int), target@, is_dir, listed).1),
                found ==> i < kids@.len() && nodes_view(kids@) == toggle_list(cs, target@, is_dir, listed).0
                    && toggle_list(cs, target@, is_dir, listed).1,
                listed == nodes_view(old(fresh).unwrap()@),
            decreases kids@.len() - i, if found { 0int } else { 1int },
        {
            let ghost before = kids@;
            let mut k = kids.remove(i);
            proof {
                assert(k == orig[i as int]);
                assert(decreases_to!(*old(self) => old(self).children));
                assert(decreases_to!(old(self).children => old(self).children->0));
                assert(decreases_to!(orig_v => orig));
                assert(decreases_to!(orig => orig[i as int]));
                assert(cs[i as int] == tree_view(orig[i as int]));
            }
            let f = k.toggle_inner(target, is_dir, fresh);
            let ghost newk = tree_view(k);
            kids.insert(i, k);
            proof {
                let rest = cs.skip(i as int);
                assert(rest[0] == cs[i as int]);
                assert(rest.drop_first() =~= cs.skip(i + 1));
                lemma_toggle_unchanged(cs[i as int], target@, is_dir, listed);
                lemma_nodes_view(kids@);
                if f {
                    assert(toggle_list(rest, target@, is_dir, listed) == (rest.update(0, newk), true));
                    assert(nodes_view(kids@) =~= cs.update(i as int, newk)) by {
                        assert forall|k2: int| 0 <= k2 < kids@.len() implies #[trigger] nodes_view(
                            kids@,
                        )[k2] == cs.update(i as int, newk)[k2] by {
                            if k2 < i {
                            } else if k2 == i {
                            } else {
                                assert(kids@[k2] == orig[k2]);
                            }
                        }
                    }
                    assert(cs.take(i as int) + rest.update(0, newk) =~= cs.update(i as int, newk));
                } else {
                    assert(newk == cs[i as int]);
                    assert(cs.take(i + 1) =~= cs.take(i as int).push(cs[i as int]));
                    assert(cs.take(i as int) + (seq![cs[i as int]] + toggle_list(
                        cs.skip(i + 1),
                        target@,
                        is_dir,
                        listed,
                    ).0) =~= cs.take(i + 1) + toggle_list(cs.skip(i + 1), target@, is_dir, listed).0);
                }
            }
            found = f;
            if !found {
                i += 1;
            }
        }
        proof {
            if !found {
                lemma_nodes_view(kids@);
                assert(cs.skip(i as int) =~= Seq::<TreeView>::empty());
                assert(cs.take(i as int) =~= cs);
                assert(nodes_view(kids@) =~= cs);
            }
        }
        self.children = Some(kids);
        found
    }

    /// Appends the rows of this tree, starting at `depth` (see
    /// [`flatten_spec`]).
    pub fn flatten(&self, depth: usize, out: &mut Vec<(usize, String, bool, bool)>)
        requires
            depth + tree_depth(tree_view(*self)) <= usize::MAX,
        ensures
            rows_view(final(out)@) == rows_view(old(out)@) + flatten_spec(
                tree_view(*self),
                depth as nat,
            ),
        decreases self,
    {
        let ghost t = tree_view(*self);
        let ghost start = rows_view(out@);
        let ghost before = out@;
        out.push((depth, self.path.clone(), self.is_dir, self.expanded));
        assert(rows_view(out@) =~= start + seq![row_of(t, depth as nat)]);
        if self.expanded {
            match &self.children {
                Some(kids) => {
                    let ghost cs = nodes_view(kids@);
                    proof {
                        lemma_nodes_view(kids@);
                    }
                    assert(cs.take(0) =~= Seq::<TreeView>::empty());
                    let mut i: usize = 0;
                    while i < kids.len()
                        invariant
                            i <= kids@.len(),
                            cs == nodes_view(kids@),
                            cs.len() == kids@.len(),
                            forall|k: int| 0 <= k < kids@.len() ==> #[trigger] cs[k] == tree_view(kids@[k]),
                            t == tree_view(*self),
                            t.children == Some(cs),
                            self.children == Some(*kids),
                            depth + tree_depth(t) <= usize::MAX,
                            rows_view(out@) == start + seq![row_of(t, depth as nat)] + flatten_list(
                                cs.take(i as int),
                                (depth + 1) as nat,
                            ),
                        decreases kids@.len() - i,
                    {
                        proof {
                            lemma_list_depth(cs, i as int);
                            assert(cs.take(i + 1).drop_last() =~= cs.take(i as int));
                            assert(decreases_to!(*self => self.children));
                            assert(decreases_to!(self.children => *kids));
                            assert(decreases_to!(*kids => kids@));
                            assert(decreases_to!(kids@ => kids@[i as int]));
                        }
                        kids[i].flatten(depth + 1, out);
                        i += 1;
                    }
                    assert(cs.take(kids@.len() as int) =~= cs);
                },
                None => {
                    assert(flatten_list(Seq::<TreeView>::empty(), (depth + 1) as nat) =~= seq![]);
                },
            }
        }
    }
}

} // verus!
