//! The file index: entries found by the walker, ranked by nucleo's fuzzy
//! matcher, and the highlighting of the characters a query matched.

use nucleo::{Config, Injector, Matcher, Nucleo, Utf32Str};
use std::path::Path;
use std::sync::Arc;
use vstd::prelude::*;

verus! {

#[verifier::external_type_specification]
#[verifier::external_body]
#[verifier::reject_recursive_types(T)]
pub struct ExNucleo<T: Sync + Send + 'static>(Nucleo<T>);

#[verifier::external_type_specification]
#[verifier::external_body]
#[verifier::reject_recursive_types(T)]
pub struct ExInjector<T>(Injector<T>);

#[verifier::external_type_specification]
#[verifier::external_body]
pub struct ExMatcher(Matcher);

/// An entry found under the root.
pub struct PathEntry {
    pub path: String,
    /// The path relative to the root, as shown and matched.
    pub display: String,
    pub is_dir: bool,
}

impl View for PathEntry {
    type V = (Seq<char>, Seq<char>, bool);

    open spec fn view(&self) -> (Seq<char>, Seq<char>, bool) {
        (self.path@, self.display@, self.is_dir)
    }
}

/// What `Path::strip_prefix` leaves of `path` under `root`, as text; `None`
/// when `root` is not a prefix of `path` by components.
pub uninterp spec fn path_under(path: Seq<char>, root: Seq<char>) -> Option<Seq<char>>;

/// `Path::strip_prefix`, the rest given as text.
#[verifier::external_body]
pub(crate) fn strip_path_prefix(path: &str, root: &str) -> (r: Option<String>)
    ensures
        r matches Some(s) ==> path_under(path@, root@) == Some(s@),
        r is None ==> path_under(path@, root@) is None,
{
    match Path::new(path).strip_prefix(root) {
        Ok(rest) => Some(rest.to_string_lossy().into_owned()),
        Err(_) => None,
    }
}

/// The text shown for `path`: its part under `root`, or the whole path when
/// it is not under `root`.
pub fn display_for(path: &str, root: &str) -> (r: String)
    ensures
        r@ == (match path_under(path@, root@) {
            Some(rest) => rest,
            None => path@,
        }),
{
    match strip_path_prefix(path, root) {
        Some(rest) => rest,
        None => path.to_string(),
    }
}

/// The entry the walker reports for `path` under `root`.
pub fn path_entry(path: String, root: &str, is_dir: bool) -> (r: PathEntry)
    ensures
        r.path@ == path@,
        r.display@ == (match path_under(path@, root@) {
            Some(rest) => rest,
            None => path@,
        }),
        r.is_dir == is_dir,
{
    let display = display_for(path.as_str(), root);
    PathEntry { path, display, is_dir }
}

/// The entries, by their views, that the last tick of the matcher ranked,
/// best first.
pub uninterp spec fn matched_entries(n: Nucleo<Arc<PathEntry>>) -> Seq<(Seq<char>, Seq<char>, bool)>;

/// `Nucleo::new` with the path configuration, one column and a notifier
/// that does nothing. Nothing has been injected yet, so nothing is matched.
#[verifier::external_body]
fn new_nucleo() -> (r: Nucleo<Arc<PathEntry>>)
    ensures
        matched_entries(r) == Seq::<(Seq<char>, Seq<char>, bool)>::empty(),
{
    let notify: Arc<dyn Fn() + Send + Sync> = Arc::new(|| {});
    Nucleo::new(Config::DEFAULT.match_paths(), notify, None, 1)
}

/// `Nucleo::injector`: a handle through which the walker adds entries. The
/// matched entries change only when the matcher ticks.
#[verifier::external_body]
fn nucleo_injector(n: &Nucleo<Arc<PathEntry>>) -> (r: Injector<Arc<PathEntry>>) {
    n.injector()
}

/// The matcher's pattern is the one that parsing `query` gives, with smart
/// case matching and smart normalization.
pub uninterp spec fn pattern_from(n: Nucleo<Arc<PathEntry>>, query: Seq<char>) -> bool;

/// `MultiPattern::reparse` of the single column with smart case matching
/// and smart normalization, not appending: the column's pattern becomes the
/// one parsed from `query`. It changes the pattern, not the matched
/// entries, which follow at the next tick.
#[verifier::external_body]
fn reparse_pattern(n: &mut Nucleo<Arc<PathEntry>>, query: &str)
    ensures
        matched_entries(*final(n)) == matched_entries(*old(n)),
        pattern_from(*final(n), query@),
{
    n.pattern.reparse(
        0,
        query,
        nucleo::pattern::CaseMatching::Smart,
        nucleo::pattern::Normalization::Smart,
        false,
    );
}

/// `Nucleo::tick` waiting up to `timeout` milliseconds, giving the status's
/// `changed`. The tick leaves the pattern as it was, and the snapshot of
/// matched entries changes only when it says so; what it matched depends on
/// the workers and is not claimed.
#[verifier::external_body]
fn nucleo_tick(n: &mut Nucleo<Arc<PathEntry>>, timeout: u64) -> (r: bool)
    ensures
        forall|q: Seq<char>| #[trigger] pattern_from(*old(n), q) ==> pattern_from(*final(n), q),
        !r ==> matched_entries(*final(n)) == matched_entries(*old(n)),
{
    n.tick(timeout).changed
}

/// `Snapshot::matched_item_count`, the number of matched entries as a `u32`.
#[verifier::external_body]
fn matched_count(n: &Nucleo<Arc<PathEntry>>) -> (r: u32)
    ensures
        r <= matched_entries(*n).len(),
        matched_entries(*n).len() <= u32::MAX ==> r == matched_entries(*n).len(),
{
    n.snapshot().matched_item_count()
}

/// `Snapshot::matched_items(0..k)`, each entry's handle cloned. It panics
/// when `k` passes the matched count; that input is left out.
#[verifier::external_body]
fn matched_prefix(n: &Nucleo<Arc<PathEntry>>, k: u32) -> (r: Vec<Arc<PathEntry>>)
    requires
        k <= matched_entries(*n).len(),
    ensures
        r@.len() == k,
        forall|i: int| 0 <= i < k ==> #[trigger] r@[i]@ == matched_entries(*n)[i],
{
    n.snapshot().matched_items(0..k).map(|m| m.data.clone()).collect()
}

/// The fuzzy index over the walked entries.
pub struct Index {
    pub nucleo: Nucleo<Arc<PathEntry>>,
}

impl Index {
    /// An index that has matched nothing yet.
    pub fn new() -> (r: Index)
        ensures
            matched_entries(r.nucleo) == Seq::<(Seq<char>, Seq<char>, bool)>::empty(),
    {
        Index { nucleo: new_nucleo() }
    }

    /// The handle through which the walker feeds entries in.
    pub fn injector(&self) -> Injector<Arc<PathEntry>> {
        nucleo_injector(&self.nucleo)
    }

    /// Sets the query; the ranking follows at the next tick.
    pub fn set_query(&mut self, query: &str)
        ensures
            matched_entries(final(self).nucleo) == matched_entries(old(self).nucleo),
            pattern_from(final(self).nucleo, query@),
    {
        reparse_pattern(&mut self.nucleo, query);
    }

    /// Lets the matcher work for up to 10 ms; whether the ranking changed.
    /// The query stays; when nothing changed, the ranking is as it was.
    pub fn tick(&mut self) -> (changed: bool)
        ensures
            forall|q: Seq<char>|
                #[trigger] pattern_from(old(self).nucleo, q) ==> pattern_from(final(self).nucleo, q),
            !changed ==> matched_entries(final(self).nucleo) == matched_entries(old(self).nucleo),
    {
        nucleo_tick(&mut self.nucleo, 10)
    }

    /// The best `max` matched entries, best first (all of them when fewer
    /// matched).
    pub fn results(&self, max: u32) -> (r: Vec<Arc<PathEntry>>)
        ensures
            matched_entries(self.nucleo).len() <= u32::MAX ==> r@.len() == (if max
                < matched_entries(self.nucleo).len() {
                max as int
            } else {
                matched_entries(self.nucleo).len() as int
            }),
            r@.len() <= max,
            forall|i: int|
                0 <= i < r@.len() ==> #[trigger] r@[i]@ == matched_entries(self.nucleo)[i],
    {
        let count = matched_count(&self.nucleo);
        let n = if count < max {
            count
        } else {
            max
        };
        matched_prefix(&self.nucleo, n)
    }
}

/// The positions that nucleo's fuzzy matcher, configured for paths, marks
/// in `haystack` for `needle`.
pub uninterp spec fn fuzzy_path_indices(haystack: Seq<char>, needle: Seq<char>) -> Seq<u32>;

/// `Matcher::new` with the path configuration.
#[verifier::external_body]
fn new_matcher() -> (r: Matcher) {
    Matcher::new(Config::DEFAULT.match_paths())
}

/// `Matcher::fuzzy_indices` into a fresh vector. The matcher is always made
/// by [`new_matcher`], so what it marks depends on the two texts alone. It
/// panics on a haystack longer than `u32::MAX`; that input is left out.
#[verifier::external_body]
fn fuzzy_indices(m: &mut Matcher, haystack: &str, needle: &str) -> (r: Vec<u32>)
    requires
        haystack@.len() <= u32::MAX,
    ensures
        r@ == fuzzy_path_indices(haystack@, needle@),
{
    let mut buf1 = Vec::new();
    let mut buf2 = Vec::new();
    let h = Utf32Str::new(haystack, &mut buf1);
    let n = Utf32Str::new(needle, &mut buf2);
    let mut indices = Vec::new();
    m.fuzzy_indices(h, n, &mut indices);
    indices
}

/// The matcher that marks which characters of a name a query matched.
pub struct PathMatcher {
    matcher: Matcher,
}

impl PathMatcher {
    pub fn new() -> PathMatcher {
        PathMatcher { matcher: new_matcher() }
    }

    /// The positions of `haystack` that `query` matched; none for an empty
    /// query.
    pub fn match_indices(&mut self, query: &str, haystack: &str) -> (r: Vec<u32>)
        requires
            haystack@.len() <= u32::MAX,
        ensures
            query@.len() == 0 ==> r@ == Seq::<u32>::empty(),
            query@.len() > 0 ==> r@ == fuzzy_path_indices(haystack@, query@),
    {
        if crate::text::chars_of(query).len() == 0 {
            return Vec::new();
        }
        fuzzy_indices(&mut self.matcher, haystack, query)
    }

    /// The matched positions of each result's display path, in result
    /// order; none at all for an empty query.
    pub fn row_indices(&mut self, query: &str, results: &Vec<PathEntry>) -> (r: Vec<Vec<u32>>)
        requires
            forall|i: int| 0 <= i < results@.len() ==> (#[trigger] results@[i]).display@.len() <= u32::MAX,
        ensures
            query@.len() == 0 ==> r@.len() == 0,
            query@.len() > 0 ==> r@.len() == results@.len() && forall|i: int|
                0 <= i < r@.len() ==> #[trigger] r@[i]@ == fuzzy_path_indices(results@[i].display@, query@),
    {
        let mut out: Vec<Vec<u32>> = Vec::new();
        if crate::text::chars_of(query).len() == 0 {
            return out;
        }
        let mut i: usize = 0;
        while i < results.len()
            invariant
                i <= results@.len(),
                query@.len() > 0,
                forall|k: int| 0 <= k < results@.len() ==> (#[trigger] results@[k]).display@.len() <= u32::MAX,
                out@.len() == i,
                forall|k: int|
                    0 <= k < i ==> #[trigger] out@[k]@ == fuzzy_path_indices(results@[k].display@, query@),
            decreases results@.len() - i,
        {
            let v = self.match_indices(query, results[i].display.as_str());
            out.push(v);
            i += 1;
        }
        out
    }
}

/// `slice::binary_search(x).is_ok()` on `s`: whether the search finds `x`.
pub uninterp spec fn binary_search_finds(s: Seq<u32>, x: u32) -> bool;

/// The slice is sorted ascending.
pub open spec fn sorted_u32(s: Seq<u32>) -> bool {
    forall|i: int, j: int| 0 <= i <= j < s.len() ==> s[i] <= s[j]
}

/// `slice::binary_search`, found or not. std documents that on a sorted
/// slice it finds exactly the values the slice holds; on another slice its
/// answer is left unspecified.
#[verifier::external_body]
fn binary_search_u32(s: &[u32], x: u32) -> (r: bool)
    ensures
        r == binary_search_finds(s@, x),
        sorted_u32(s@) ==> (r == s@.contains(x)),
{
    s.binary_search(&x).is_ok()
}

/// Runs of characters by flag: the characters cut where the flag changes.
pub open spec fn runs_of(cs: Seq<char>, fs: Seq<bool>) -> Seq<(Seq<char>, bool)>
    recommends
        cs.len() == fs.len(),
    decreases cs.len(),
{
    if cs.len() == 0 {
        seq![]
    } else {
        let rest = runs_of(cs.drop_last(), fs.drop_last());
        if rest.len() > 0 && rest.last().1 == fs.last() {
            rest.update(rest.len() - 1, (rest.last().0.push(cs.last()), fs.last()))
        } else {
            rest.push((seq![cs.last()], fs.last()))
        }
    }
}

/// Whether each character position of a name is marked by `indices`.
pub open spec fn marked_flags(n: nat, indices: Seq<u32>) -> Seq<bool> {
    Seq::new(n, |i: int| binary_search_finds(indices, i as u32))
}

/// The runs of `name` shown plain and highlighted: character `i` is
/// highlighted when the search of `indices` finds `i`.
pub fn highlight_runs(name: &str, indices: &[u32]) -> (r: Vec<(String, bool)>)
    ensures
        r@.map_values(|p: (String, bool)| (p.0@, p.1)) == runs_of(
            name@,
            marked_flags(name@.len(), indices@),
        ),
{
    let cs = crate::text::chars_of(name);
    let ghost fs = marked_flags(name@.len(), indices@);
    let mut runs: Vec<(Vec<char>, bool)> = Vec::new();
    let mut i: usize = 0;
    assert(cs@.take(0) =~= seq![]);
    assert(fs.take(0) =~= seq![]);
    while i < cs.len()
        invariant
            cs@ == name@,
            fs == marked_flags(name@.len(), indices@),
            i <= cs@.len(),
            runs@.map_values(|p: (Vec<char>, bool)| (p.0@, p.1)) == runs_of(
                cs@.take(i as int),
                fs.take(i as int),
            ),
        decreases cs@.len() - i,
    {
        let ci: u32 = #[verifier::truncate] (i as u32);
        let is_hi = binary_search_u32(indices, ci);
        let c = cs[i];
        let ghost before = runs@.map_values(|p: (Vec<char>, bool)| (p.0@, p.1));
        proof {
            assert(cs@.take(i + 1).drop_last() =~= cs@.take(i as int));
            assert(fs.take(i + 1).drop_last() =~= fs.take(i as int));
            assert(fs[i as int] == is_hi);
        }
        let n = runs.len();
        if n > 0 && runs[n - 1].1 == is_hi {
            let mut last = runs.pop().unwrap();
            last.0.push(c);
            runs.push(last);
            assert(runs@.map_values(|p: (Vec<char>, bool)| (p.0@, p.1)) =~= before.update(
                before.len() - 1,
                (before.last().0.push(c), is_hi),
            ));
        } else {
            let mut v: Vec<char> = Vec::new();
            v.push(c);
            runs.push((v, is_hi));
            assert(runs@.map_values(|p: (Vec<char>, bool)| (p.0@, p.1)) =~= before.push(
                (seq![c], is_hi),
            ));
        }
        i += 1;
    }
    assert(cs@.take(cs@.len() as int) =~= cs@);
    assert(fs.take(cs@.len() as int) =~= fs);
    let mut out: Vec<(String, bool)> = Vec::new();
    let mut k: usize = 0;
    while k < runs.len()
        invariant
            k <= runs@.len(),
            out@.len() == k,
            forall|j: int|
                0 <= j < k ==> (#[trigger] out@[j]).0@ == runs@[j].0@ && out@[j].1 == runs@[j].1,
        decreases runs@.len() - k,
    {
        let s = crate::text::string_from_chars(runs[k].0.as_slice());
        out.push((s, runs[k].1));
        k += 1;
    }
    assert(out@.map_values(|p: (String, bool)| (p.0@, p.1)) =~= runs@.map_values(
        |p: (Vec<char>, bool)| (p.0@, p.1),
    ));
    out
}

/// The texts of runs put together.
pub open spec fn runs_text(rs: Seq<(Seq<char>, bool)>) -> Seq<char>
    decreases rs.len(),
{
    if rs.len() == 0 {
        seq![]
    } else {
        runs_text(rs.drop_last()) + rs.last().0
    }
}

/// The runs spell out the name, none is empty, and neighbouring runs
/// differ in whether they are highlighted.
pub proof fn lemma_runs_cover(cs: Seq<char>, fs: Seq<bool>)
    requires
        cs.len() == fs.len(),
    ensures
        runs_text(runs_of(cs, fs)) == cs,
        forall|j: int| 0 <= j < runs_of(cs, fs).len() ==> (#[trigger] runs_of(cs, fs)[j]).0.len() > 0,
        forall|j: int|
            0 <= j < runs_of(cs, fs).len() - 1 ==> (#[trigger] runs_of(cs, fs)[j]).1 != runs_of(
                cs,
                fs,
            )[j + 1].1,
    decreases cs.len(),
{
    if cs.len() > 0 {
        let rest = runs_of(cs.drop_last(), fs.drop_last());
        lemma_runs_cover(cs.drop_last(), fs.drop_last());
        let rs = runs_of(cs, fs);
        if rest.len() > 0 && rest.last().1 == fs.last() {
            assert(rs.drop_last() =~= rest.drop_last());
            assert(runs_text(rest) == runs_text(rest.drop_last()) + rest.last().0);
            assert(runs_text(rs) =~= runs_text(rest) + seq![cs.last()]);
            assert(cs =~= cs.drop_last() + seq![cs.last()]);
        } else {
            assert(rs.drop_last() =~= rest);
            assert(cs =~= cs.drop_last() + seq![cs.last()]);
        }
    }
}

} // verus!
