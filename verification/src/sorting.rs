//! Ordering the results: by name (case-folded text, ascending) or by a
//! number such as the size or the modification time (descending). Both
//! sorts are stable: entries that compare equal keep their ranking.
//!
//! A sort returns the new order as positions into the old list.

use crate::session::SortMode;
use crate::text::chars_of;
use vstd::prelude::*;

verus! {

/// `o` lists each position below `n` exactly once.
pub open spec fn is_permutation(o: Seq<usize>, n: nat) -> bool {
    &&& o.len() == n
    &&& forall|k: int| 0 <= k < o.len() ==> #[trigger] o[k] < n
    &&& forall|a: int, b: int| 0 <= a < b < o.len() ==> o[a] != o[b]
}

/// The order puts larger keys first, and equal keys in their old order.
pub open spec fn stable_desc(o: Seq<usize>, keys: Seq<u64>) -> bool {
    &&& forall|a: int, b: int|
        0 <= a < b < o.len() ==> keys[o[a] as int] >= keys[o[b] as int]
    &&& forall|a: int, b: int|
        0 <= a < b < o.len() && keys[o[a] as int] == keys[o[b] as int] ==> o[a] < o[b]
}

/// The positions `0..n`, larger keys first, ties in their old order.
pub fn order_by_key_desc(keys: &Vec<u64>) -> (r: Vec<usize>)
    ensures
        is_permutation(r@, keys@.len()),
        stable_desc(r@, keys@),
{
    let n = keys.len();
    let mut o: Vec<usize> = Vec::new();
    let mut i: usize = 0;
    while i < n
        invariant
            n == keys@.len(),
            i <= n,
            is_permutation(o@, i as nat),
            stable_desc(o@, keys@),
        decreases n - i,
    {
        let ki = keys[i];
        let mut p: usize = 0;
        while p < o.len() && keys[o[p]] >= ki
            invariant
                n == keys@.len(),
                i < n,
                ki == keys@[i as int],
                p <= o@.len(),
                is_permutation(o@, i as nat),
                forall|q: int| 0 <= q < p ==> keys@[#[trigger] o@[q] as int] >= ki,
            decreases o@.len() - p,
        {
            p += 1;
        }
        let ghost old_o = o@;
        o.insert(p, i);
        proof {
            assert(o@ == old_o.insert(p as int, i));
            assert forall|k: int| 0 <= k < o@.len() implies #[trigger] o@[k] < i + 1 by {
                if k > p {
                    assert(o@[k] == old_o[k - 1]);
                }
            }
            assert forall|a: int, b: int| 0 <= a < b < o@.len() implies o@[a] != o@[b] by {
                if a < p && b < p {
                } else if a < p && b == p {
                    assert(old_o[a] < i);
                } else if a < p && b > p {
                    assert(o@[b] == old_o[b - 1]);
                } else if a == p {
                    assert(o@[b] == old_o[b - 1]);
                    assert(old_o[b - 1] < i);
                } else {
                    assert(o@[a] == old_o[a - 1]);
                    assert(o@[b] == old_o[b - 1]);
                }
            }
            assert forall|a: int, b: int| 0 <= a < b < o@.len() implies keys@[o@[a] as int]
                >= keys@[o@[b] as int] by {
                if b < p {
                } else if b == p {
                    assert(keys@[old_o[a] as int] >= ki);
                } else if a < p {
                    assert(o@[b] == old_o[b - 1]);
                } else if a == p {
                    assert(o@[b] == old_o[b - 1]);
                    assert(keys@[old_o[p as int] as int] < ki);
                    assert(keys@[old_o[p as int] as int] >= keys@[old_o[b - 1] as int]);
                } else {
                    assert(o@[a] == old_o[a - 1]);
                    assert(o@[b] == old_o[b - 1]);
                }
            }
            assert forall|a: int, b: int|
                0 <= a < b < o@.len() && keys@[o@[a] as int] == keys@[o@[b] as int] implies o@[a]
                < o@[b] by {
                if b < p {
                } else if b == p {
                    assert(old_o[a] < i);
                } else if a < p {
                    assert(o@[b] == old_o[b - 1]);
                } else if a == p {
                    assert(o@[b] == old_o[b - 1]);
                    assert(keys@[old_o[p as int] as int] < ki);
                    assert(keys@[old_o[p as int] as int] >= keys@[old_o[b - 1] as int]);
                } else {
                    assert(o@[a] == old_o[a - 1]);
                    assert(o@[b] == old_o[b - 1]);
                }
            }
        }
        i += 1;
    }
    o
}

/// Text order: character by character by code point, a proper prefix
/// first (the order of `String`, whose UTF-8 bytes compare the same way).
pub open spec fn text_lt(a: Seq<char>, b: Seq<char>) -> bool
    decreases a.len(),
{
    if b.len() == 0 {
        false
    } else if a.len() == 0 {
        true
    } else if a[0] != b[0] {
        a[0] < b[0]
    } else {
        text_lt(a.drop_first(), b.drop_first())
    }
}

/// Text order is irreflexive.
pub proof fn lemma_text_irreflexive(a: Seq<char>)
    ensures
        !text_lt(a, a),
    decreases a.len(),
{
    if a.len() > 0 {
        lemma_text_irreflexive(a.drop_first());
    }
}

/// Of two different texts exactly one comes first.
pub proof fn lemma_text_total(a: Seq<char>, b: Seq<char>)
    ensures
        a != b ==> (text_lt(a, b) || text_lt(b, a)),
        !(text_lt(a, b) && text_lt(b, a)),
    decreases a.len(),
{
    if a.len() > 0 && b.len() > 0 {
        lemma_text_total(a.drop_first(), b.drop_first());
        if a[0] == b[0] && a != b {
            assert(a.drop_first() != b.drop_first()) by {
                if a.drop_first() == b.drop_first() {
                    assert(a =~= seq![a[0]] + a.drop_first());
                    assert(b =~= seq![b[0]] + b.drop_first());
                }
            }
        }
    } else if a.len() == 0 && b.len() == 0 {
        assert(a =~= b);
    }
}

/// Text order is transitive.
pub proof fn lemma_text_transitive(a: Seq<char>, b: Seq<char>, c: Seq<char>)
    requires
        text_lt(a, b),
        text_lt(b, c),
    ensures
        text_lt(a, c),
    decreases a.len(),
{
    if a.len() > 0 && b.len() > 0 && c.len() > 0 && a[0] == b[0] && b[0] == c[0] {
        lemma_text_transitive(a.drop_first(), b.drop_first(), c.drop_first());
    }
}

/// Text order is a strict total order.
pub proof fn lemma_text_order(a: Seq<char>, b: Seq<char>, c: Seq<char>)
    ensures
        !text_lt(a, a),
        a != b ==> (text_lt(a, b) || text_lt(b, a)),
        !(text_lt(a, b) && text_lt(b, a)),
        text_lt(a, b) && text_lt(b, c) ==> text_lt(a, c),
{
    lemma_text_irreflexive(a);
    lemma_text_total(a, b);
    if text_lt(a, b) && text_lt(b, c) {
        lemma_text_transitive(a, b, c);
    }
}

/// `text_lt(a, b)` on character vectors.
pub(crate) fn text_less(a: &Vec<char>, b: &Vec<char>) -> (r: bool)
    ensures
        r == text_lt(a@, b@),
{
    let mut i: usize = 0;
    assert(a@.skip(0) =~= a@);
    assert(b@.skip(0) =~= b@);
    while i < a.len() && i < b.len() && a[i] == b[i]
        invariant
            i <= a@.len(),
            i <= b@.len(),
            text_lt(a@, b@) == text_lt(a@.skip(i as int), b@.skip(i as int)),
        decreases a@.len() - i,
    {
        assert(a@.skip(i as int).drop_first() =~= a@.skip(i + 1));
        assert(b@.skip(i as int).drop_first() =~= b@.skip(i + 1));
        i += 1;
    }
    if i == b.len() {
        false
    } else if i == a.len() {
        true
    } else {
        a[i] < b[i]
    }
}

/// The order puts smaller texts first, and equal texts in their old order.
pub open spec fn stable_text(o: Seq<usize>, keys: Seq<Seq<char>>) -> bool {
    &&& forall|a: int, b: int|
        0 <= a < b < o.len() ==> !text_lt(keys[o[b] as int], keys[o[a] as int])
    &&& forall|a: int, b: int|
        0 <= a < b < o.len() && keys[o[a] as int] == keys[o[b] as int] ==> o[a] < o[b]
}

/// Character vectors by their views.
pub open spec fn char_views(v: Seq<Vec<char>>) -> Seq<Seq<char>> {
    v.map_values(|c: Vec<char>| c@)
}

/// The positions `0..n`, smaller texts first, ties in their old order.
pub fn order_by_text(keys: &Vec<Vec<char>>) -> (r: Vec<usize>)
    ensures
        is_permutation(r@, keys@.len()),
        stable_text(r@, char_views(keys@)),
{
    let ghost kv = char_views(keys@);
    let n = keys.len();
    let mut o: Vec<usize> = Vec::new();
    let mut i: usize = 0;
    while i < n
        invariant
            n == keys@.len(),
            kv == char_views(keys@),
            i <= n,
            is_permutation(o@, i as nat),
            stable_text(o@, kv),
        decreases n - i,
    {
        let mut p: usize = 0;
        while p < o.len() && !text_less(&keys[i], &keys[o[p]])
            invariant
                n == keys@.len(),
                kv == char_views(keys@),
                i < n,
                p <= o@.len(),
                is_permutation(o@, i as nat),
                forall|q: int| 0 <= q < p ==> !text_lt(kv[i as int], kv[#[trigger] o@[q] as int]),
            decreases o@.len() - p,
        {
            p += 1;
        }
        let ghost old_o = o@;
        let ghost ki = kv[i as int];
        o.insert(p, i);
        proof {
            assert(o@ == old_o.insert(p as int, i));
            assert forall|k: int| 0 <= k < o@.len() implies #[trigger] o@[k] < i + 1 by {
                if k > p {
                    assert(o@[k] == old_o[k - 1]);
                }
            }
            assert forall|a: int, b: int| 0 <= a < b < o@.len() implies o@[a] != o@[b] by {
                if a < p && b < p {
                } else if a < p && b == p {
                    assert(old_o[a] < i);
                } else if a < p && b > p {
                    assert(o@[b] == old_o[b - 1]);
                } else if a == p {
                    assert(o@[b] == old_o[b - 1]);
                    assert(old_o[b - 1] < i);
                } else {
                    assert(o@[a] == old_o[a - 1]);
                    assert(o@[b] == old_o[b - 1]);
                }
            }
            assert forall|a: int, b: int| 0 <= a < b < o@.len() implies !text_lt(
                kv[o@[b] as int],
                kv[o@[a] as int],
            ) && (kv[o@[a] as int] == kv[o@[b] as int] ==> o@[a] < o@[b]) by {
                if b < p {
                } else if b == p {
                    assert(!text_lt(ki, kv[old_o[a] as int]));
                    assert(old_o[a] < i);
                } else if a < p {
                    assert(o@[b] == old_o[b - 1]);
                } else if a == p {
                    let x = kv[old_o[p as int] as int];
                    let y = kv[old_o[b - 1] as int];
                    assert(o@[b] == old_o[b - 1]);
                    assert(text_lt(ki, x));
                    if p < b - 1 {
                        assert(!text_lt(y, x));
                    } else {
                        lemma_text_irreflexive(x);
                    }
                    lemma_text_order(ki, x, y);
                    lemma_text_order(y, ki, x);
                    lemma_text_order(ki, y, x);
                    lemma_text_order(x, y, ki);
                    lemma_text_order(y, x, ki);
                    if x != y {
                        assert(text_lt(x, y));
                    }
                    assert(text_lt(ki, y));
                } else {
                    assert(o@[a] == old_o[a - 1]);
                    assert(o@[b] == old_o[b - 1]);
                }
            }
        }
        i += 1;
    }
    o
}

/// Text case-folded by `str::to_lowercase` (Unicode lower case).
pub uninterp spec fn lowercase(s: Seq<char>) -> Seq<char>;

/// `str::to_lowercase`.
#[verifier::external_body]
pub(crate) fn to_lowercase(s: &str) -> (r: String)
    ensures
        r@ == lowercase(s@),
{
    s.to_lowercase()
}

/// The names, case-folded, as sort keys.
pub open spec fn name_keys(names: Seq<String>) -> Seq<Seq<char>> {
    names.map_values(|s: String| lowercase(s@))
}

/// The order of a sort by name: case-folded names, smaller first, ties in
/// their old order.
pub fn order_by_name(names: &Vec<String>) -> (r: Vec<usize>)
    ensures
        is_permutation(r@, names@.len()),
        stable_text(r@, name_keys(names@)),
{
    let mut keys: Vec<Vec<char>> = Vec::new();
    let mut i: usize = 0;
    while i < names.len()
        invariant
            i <= names@.len(),
            keys@.len() == i,
            forall|k: int| 0 <= k < i ==> (#[trigger] keys@[k])@ == lowercase(names@[k]@),
        decreases names@.len() - i,
    {
        let l = to_lowercase(names[i].as_str());
        keys.push(chars_of(l.as_str()));
        i += 1;
    }
    let r = order_by_text(&keys);
    assert(char_views(keys@) =~= name_keys(names@));
    r
}

/// The file fact a sort orders results by, largest first.
#[derive(Clone, Copy, PartialEq, Eq, Structural, Debug)]
pub enum SortKey {
    /// The size in bytes.
    Size,
    /// The modification time in seconds.
    Modified,
}

/// The file fact a sort mode needs: none for relevance and name.
pub fn sort_key(sort: SortMode) -> (r: Option<SortKey>)
    ensures
        r == (match sort {
            SortMode::Size => Some(SortKey::Size),
            SortMode::Modified => Some(SortKey::Modified),
            _ => None,
        }),
{
    match sort {
        SortMode::Size => Some(SortKey::Size),
        SortMode::Modified => Some(SortKey::Modified),
        _ => None,
    }
}

/// The new order of the results under `sort`, as positions into the old
/// list: `None` for relevance, which keeps the matcher's order; by display
/// name, ignoring case, for name; by `keys` (the [`sort_key`] fact of each
/// result), largest first, for size and modification time. Ties keep their
/// old order.
pub fn sort_order(sort: SortMode, names: &Vec<String>, keys: &Vec<u64>) -> (r: Option<Vec<usize>>)
    ensures
        match sort {
            SortMode::Relevance => r is None,
            SortMode::Name => r matches Some(o) && is_permutation(o@, names@.len()) && stable_text(
                o@,
                name_keys(names@),
            ),
            _ => r matches Some(o) && is_permutation(o@, keys@.len()) && stable_desc(o@, keys@),
        },
{
    match sort {
        SortMode::Relevance => None,
        SortMode::Name => Some(order_by_name(names)),
        _ => Some(order_by_key_desc(keys)),
    }
}

} // verus!
