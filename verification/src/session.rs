//! Tabs and the session file: one tab per line, seven tab-separated fields
//! `root, query, files|content, sort, selected, viewport start, show_hidden`.

use vstd::prelude::*;
use crate::settings::{bool_string, bool_text};
use crate::text::{
    chars_eq, chars_of, decimal, first_index, lemma_decimal_parse, lemma_first_index_concat,
    join_lines, lemma_first_index_none, lemma_first_index_props, lemma_join_push, lemma_lines_join,
    lacks, lemma_decimal_lacks, lemma_nonblank_all, lemma_trim_id, lemma_trim_nonempty, lines, nonblank, parse_unsigned, plain_line,
    parse_unsigned_chars, push_all, push_char, push_decimal, push_str, slice_range,
    split_lines, string_from_chars, trim, trim_chars,
};

verus! {

/// What the query is matched against.
#[derive(Clone, Copy, PartialEq, Eq, Structural, Debug)]
pub enum SearchMode {
    Filename,
    Content,
}

/// Order of the result list.
#[derive(Clone, Copy, PartialEq, Eq, Structural, Debug)]
pub enum SortMode {
    Relevance,
    Name,
    Size,
    Modified,
}

/// The name of a sort mode, as written in settings and sessions.
pub open spec fn sort_label(s: SortMode) -> Seq<char> {
    match s {
        SortMode::Relevance => "relevance"@,
        SortMode::Name => "name"@,
        SortMode::Size => "size"@,
        SortMode::Modified => "modified"@,
    }
}

/// The sort mode a name stands for; unknown names mean relevance.
pub open spec fn sort_from_label(s: Seq<char>) -> SortMode {
    if s == "name"@ {
        SortMode::Name
    } else if s == "size"@ {
        SortMode::Size
    } else if s == "modified"@ {
        SortMode::Modified
    } else {
        SortMode::Relevance
    }
}

/// The sort mode that follows `s` in the cycle relevance → name → size →
/// modified → relevance.
pub open spec fn sort_next(s: SortMode) -> SortMode {
    match s {
        SortMode::Relevance => SortMode::Name,
        SortMode::Name => SortMode::Size,
        SortMode::Size => SortMode::Modified,
        SortMode::Modified => SortMode::Relevance,
    }
}

impl SortMode {
    /// The name of the sort mode.
    pub fn label(self) -> (r: &'static str)
        ensures
            r@ == sort_label(self),
    {
        match self {
            SortMode::Relevance => "relevance",
            SortMode::Name => "name",
            SortMode::Size => "size",
            SortMode::Modified => "modified",
        }
    }

    /// The next sort mode in the cycle.
    pub fn next(self) -> (r: Self)
        ensures
            r == sort_next(self),
    {
        match self {
            SortMode::Relevance => SortMode::Name,
            SortMode::Name => SortMode::Size,
            SortMode::Size => SortMode::Modified,
            SortMode::Modified => SortMode::Relevance,
        }
    }

    /// The sort mode named `s` (relevance for any other name).
    pub fn from_label(s: &str) -> (r: Self)
        ensures
            r == sort_from_label(s@),
    {
        if crate::text::str_is(s, "name") {
            SortMode::Name
        } else if crate::text::str_is(s, "size") {
            SortMode::Size
        } else if crate::text::str_is(s, "modified") {
            SortMode::Modified
        } else {
            SortMode::Relevance
        }
    }
}

/// Reading back the name of a sort mode gives the mode.
pub proof fn lemma_sort_label_roundtrip(s: SortMode)
    ensures
        sort_from_label(sort_label(s)) == s,
{
    reveal_strlit("relevance");
    reveal_strlit("name");
    reveal_strlit("size");
    reveal_strlit("modified");
    assert("name"@[0] != "size"@[0]);
    assert("relevance"@.len() != "name"@.len());
    assert("relevance"@.len() != "size"@.len());
    assert("relevance"@.len() != "modified"@.len());
    assert("size"@.len() != "modified"@.len());
}

/// Cycling the sort mode four times comes back to it.
pub proof fn lemma_sort_cycle(s: SortMode)
    ensures
        sort_next(sort_next(sort_next(sort_next(s)))) == s,
        sort_next(s) != s,
{
}

/// The state of one tab.
pub struct TabSnapshot {
    pub root: String,
    pub query: String,
    pub search_mode: SearchMode,
    pub sort: SortMode,
    pub selected: usize,
    pub viewport_start: usize,
    pub show_hidden: bool,
}

/// The contents of a tab snapshot.
pub struct TabView {
    pub root: Seq<char>,
    pub query: Seq<char>,
    pub search_mode: SearchMode,
    pub sort: SortMode,
    pub selected: nat,
    pub viewport_start: nat,
    pub show_hidden: bool,
}

impl TabSnapshot {
    /// The contents of the snapshot.
    pub open spec fn view(&self) -> TabView {
        TabView {
            root: self.root@,
            query: self.query@,
            search_mode: self.search_mode,
            sort: self.sort,
            selected: self.selected as nat,
            viewport_start: self.viewport_start as nat,
            show_hidden: self.show_hidden,
        }
    }

    /// A copy of the snapshot.
    pub fn duplicate(&self) -> (r: TabSnapshot)
        ensures
            r@ == self@,
    {
        TabSnapshot {
            root: self.root.clone(),
            query: self.query.clone(),
            search_mode: self.search_mode,
            sort: self.sort,
            selected: self.selected,
            viewport_start: self.viewport_start,
            show_hidden: self.show_hidden,
        }
    }
}

/// `str::splitn(n, c)`: at most `n` pieces, the last holding the rest.
pub open spec fn splitn(s: Seq<char>, n: nat, c: char) -> Seq<Seq<char>>
    decreases n,
{
    if n <= 1 {
        seq![s]
    } else {
        match first_index(s, c) {
            None => seq![s],
            Some(i) => {
                proof {
                    lemma_first_index_props(s, c);
                }
                seq![s.take(i)] + splitn(s.skip(i + 1), (n - 1) as nat, c)
            },
        }
    }
}

/// Piece `i`, if there is one.
pub open spec fn piece(ps: Seq<Seq<char>>, i: int) -> Option<Seq<char>> {
    if 0 <= i < ps.len() {
        Some(ps[i])
    } else {
        None
    }
}

/// A number field: its value when it parses as a `usize`, else 0.
pub open spec fn number_field(p: Option<Seq<char>>) -> nat {
    match p {
        Some(t) => match parse_unsigned(t, usize::MAX as nat) {
            Some(n) => n,
            None => 0,
        },
        None => 0,
    }
}

/// The tab a session line describes: missing fields take their defaults
/// (empty query, file-name search, relevance, 0, 0, hidden files off).
pub open spec fn parse_session_line_spec(line: Seq<char>) -> TabView {
    let ps = splitn(line, 7, '\t');
    TabView {
        root: ps[0],
        query: match piece(ps, 1) {
            Some(q) => q,
            None => Seq::empty(),
        },
        search_mode: if piece(ps, 2) == Some("content"@) {
            SearchMode::Content
        } else {
            SearchMode::Filename
        },
        sort: match piece(ps, 3) {
            Some(t) => sort_from_label(t),
            None => SortMode::Relevance,
        },
        selected: number_field(piece(ps, 4)),
        viewport_start: number_field(piece(ps, 5)),
        show_hidden: piece(ps, 6) == Some("true"@),
    }
}

/// The name of a search mode in the session file.
pub open spec fn mode_text(m: SearchMode) -> Seq<char> {
    match m {
        SearchMode::Filename => "files"@,
        SearchMode::Content => "content"@,
    }
}

/// Tabs replaced by spaces.
pub open spec fn untab(s: Seq<char>) -> Seq<char> {
    s.map_values(|c: char| if c == '\t' {
        ' '
    } else {
        c
    })
}

/// The session line written for a tab.
pub open spec fn session_line_spec(t: TabView) -> Seq<char> {
    t.root + "\t"@ + untab(t.query) + "\t"@ + mode_text(t.search_mode) + "\t"@ + sort_label(t.sort)
        + "\t"@ + decimal(t.selected) + "\t"@ + decimal(t.viewport_start) + "\t"@ + bool_text(
        t.show_hidden,
    )
}

/// The pieces of `v` split at `c`, at most `n` of them.
fn splitn_chars(v: &[char], n: usize, c: char) -> (r: Vec<Vec<char>>)
    requires
        n >= 1,
    ensures
        r@.len() == splitn(v@, n as nat, c).len(),
        forall|i: int| 0 <= i < r@.len() ==> #[trigger] r@[i]@ == splitn(v@, n as nat, c)[i],
    decreases n,
{
    if n <= 1 {
        let mut r: Vec<Vec<char>> = Vec::new();
        r.push(slice_range(v, 0, v.len()));
        assert(v@.subrange(0, v@.len() as int) =~= v@);
        return r;
    }
    match crate::text::find_char(v, c) {
        None => {
            let mut r: Vec<Vec<char>> = Vec::new();
            r.push(slice_range(v, 0, v.len()));
            assert(v@.subrange(0, v@.len() as int) =~= v@);
            r
        },
        Some(i) => {
            proof {
                lemma_first_index_props(v@, c);
            }
            let len = v.len();
            let head = slice_range(v, 0, i);
            let rest = slice_range(v, i + 1, len);
            assert(head@ =~= v@.take(i as int));
            assert(rest@ =~= v@.skip(i + 1));
            let tail = splitn_chars(rest.as_slice(), n - 1, c);
            let mut r: Vec<Vec<char>> = Vec::new();
            r.push(head);
            let mut k: usize = 0;
            let ghost whole = splitn(v@, n as nat, c);
            assert(whole =~= seq![v@.take(i as int)] + splitn(v@.skip(i + 1), (n - 1) as nat, c));
            while k < tail.len()
                invariant
                    k <= tail@.len(),
                    tail@.len() == splitn(rest@, (n - 1) as nat, c).len(),
                    forall|j: int| 0 <= j < tail@.len() ==> #[trigger] tail@[j]@ == splitn(rest@, (n - 1) as nat, c)[j],
                    r@.len() == k + 1,
                    whole == seq![v@.take(i as int)] + splitn(rest@, (n - 1) as nat, c),
                    forall|j: int| 0 <= j < r@.len() ==> #[trigger] r@[j]@ == whole[j],
                decreases tail@.len() - k,
            {
                let piece = slice_range(tail[k].as_slice(), 0, tail[k].len());
                assert(piece@ =~= tail@[k as int]@);
                r.push(piece);
                k += 1;
            }
            r
        },
    }
}

/// The optional piece `i` of `ps`.
fn piece_at(ps: &Vec<Vec<char>>, i: usize) -> (r: Option<&Vec<char>>)
    ensures
        match r {
            Some(p) => i < ps@.len() && p@ == ps@[i as int]@,
            None => i >= ps@.len(),
        },
{
    if i < ps.len() {
        Some(&ps[i])
    } else {
        None
    }
}

fn number_of(p: Option<&Vec<char>>) -> (r: usize)
    ensures
        r as nat == number_field(match p {
            Some(t) => Some(t@),
            None => None,
        }),
{
    match p {
        Some(t) => match parse_unsigned_chars(t.as_slice(), usize::MAX as u64) {
            Some(n) => n as usize,
            None => 0,
        },
        None => 0,
    }
}

/// The tab a session line describes (always present: missing fields take
/// their defaults).
pub fn parse_session_line(line: &str) -> (r: Option<TabSnapshot>)
    ensures
        r matches Some(t) && t@ == parse_session_line_spec(line@),
{
    let v = chars_of(line);
    let ps = splitn_chars(v.as_slice(), 7, '\t');
    let ghost sp = splitn(v@, 7, '\t');
    assert(ps@.len() >= 1);
    let root = string_from_chars(ps[0].as_slice());
    let query = match piece_at(&ps, 1) {
        Some(q) => string_from_chars(q.as_slice()),
        None => String::new(),
    };
    let content = chars_of("content");
    let search_mode = match piece_at(&ps, 2) {
        Some(m) => if chars_eq(m.as_slice(), content.as_slice()) {
            SearchMode::Content
        } else {
            SearchMode::Filename
        },
        None => SearchMode::Filename,
    };
    let sort = match piece_at(&ps, 3) {
        Some(m) => {
            let ms = string_from_chars(m.as_slice());
            SortMode::from_label(ms.as_str())
        },
        None => SortMode::Relevance,
    };
    let selected = number_of(piece_at(&ps, 4));
    let viewport_start = number_of(piece_at(&ps, 5));
    let tru = chars_of("true");
    let show_hidden = match piece_at(&ps, 6) {
        Some(m) => chars_eq(m.as_slice(), tru.as_slice()),
        None => false,
    };
    let t = TabSnapshot { root, query, search_mode, sort, selected, viewport_start, show_hidden };
    assert(t@ == parse_session_line_spec(line@));
    Some(t)
}

/// The session line for a tab (tabs in the query become spaces).
pub fn session_line(t: &TabSnapshot) -> (r: String)
    ensures
        r@ == session_line_spec(t@),
{
    let mut s = String::new();
    push_str(&mut s, t.root.as_str());
    push_str(&mut s, "\t");
    let q = chars_of(t.query.as_str());
    let mut i: usize = 0;
    let ghost base = s@;
    while i < q.len()
        invariant
            i <= q@.len(),
            q@ == t.query@,
            s@ == base + untab(t.query@).take(i as int),
        decreases q@.len() - i,
    {
        let c = if q[i] == '\t' {
            ' '
        } else {
            q[i]
        };
        push_char(&mut s, c);
        assert(base + untab(t.query@).take(i as int) + seq![c] =~= base + untab(t.query@).take(i + 1));
        i += 1;
    }
    assert(untab(t.query@).take(q@.len() as int) =~= untab(t.query@));
    push_str(&mut s, "\t");
    match t.search_mode {
        SearchMode::Filename => push_str(&mut s, "files"),
        SearchMode::Content => push_str(&mut s, "content"),
    }
    push_str(&mut s, "\t");
    push_str(&mut s, t.sort.label());
    push_str(&mut s, "\t");
    push_decimal(&mut s, t.selected as u64);
    push_str(&mut s, "\t");
    push_decimal(&mut s, t.viewport_start as u64);
    push_str(&mut s, "\t");
    let b = bool_string(t.show_hidden);
    push_str(&mut s, b.as_str());
    s
}

proof fn lemma_splitn_step(a: Seq<char>, rest: Seq<char>, n: nat, c: char)
    requires
        lacks(a, c),
        n >= 2,
    ensures
        splitn(a + seq![c] + rest, n, c) == seq![a] + splitn(rest, (n - 1) as nat, c),
{
    lemma_first_index_concat(a, rest, c);
}

/// The seven fields of a tab's session line.
pub open spec fn line_fields(t: TabView) -> Seq<Seq<char>> {
    seq![
        t.root,
        untab(t.query),
        mode_text(t.search_mode),
        sort_label(t.sort),
        decimal(t.selected),
        decimal(t.viewport_start),
        bool_text(t.show_hidden),
    ]
}

#[verifier::spinoff_prover]
#[verifier::rlimit(30)]
proof fn lemma_line_fields(t: TabView)
    requires
        lacks(t.root, '\t'),
    ensures
        splitn(session_line_spec(t), 7, '\t') == line_fields(t),
{
    reveal_strlit("\t");
    reveal_strlit("files");
    reveal_strlit("content");
    reveal_strlit("relevance");
    reveal_strlit("name");
    reveal_strlit("size");
    reveal_strlit("modified");
    let tab = seq!['\t'];
    let q = untab(t.query);
    let m = mode_text(t.search_mode);
    let l = sort_label(t.sort);
    let d1 = decimal(t.selected);
    let d2 = decimal(t.viewport_start);
    let b = bool_text(t.show_hidden);
    assert(lacks(q, '\t'));
    assert(lacks(m, '\t'));
    assert(lacks(l, '\t'));
    lemma_decimal_lacks(t.selected, '\t');
    lemma_decimal_lacks(t.viewport_start, '\t');
    let r6 = d2 + tab + b;
    let r5 = d1 + tab + r6;
    let r4 = l + tab + r5;
    let r3 = m + tab + r4;
    let r2 = q + tab + r3;
    assert(session_line_spec(t) =~= t.root + tab + r2);
    lemma_splitn_step(d2, b, 2, '\t');
    lemma_splitn_step(d1, r6, 3, '\t');
    lemma_splitn_step(l, r5, 4, '\t');
    lemma_splitn_step(m, r4, 5, '\t');
    lemma_splitn_step(q, r3, 6, '\t');
    lemma_splitn_step(t.root, r2, 7, '\t');
    assert(splitn(b, 1, '\t') == seq![b]);
    assert(splitn(session_line_spec(t), 7, '\t') =~= line_fields(t));
}

/// Writing a tab's session line and reading it back gives the tab, with
/// tabs in its query turned into spaces, when its root has no tab.
pub proof fn lemma_session_line_roundtrip(t: TabView)
    requires
        lacks(t.root, '\t'),
        t.selected <= usize::MAX,
        t.viewport_start <= usize::MAX,
    ensures
        parse_session_line_spec(session_line_spec(t)) == (TabView { query: untab(t.query), ..t }),
{
    reveal_strlit("files");
    reveal_strlit("content");
    reveal_strlit("true");
    reveal_strlit("false");
    lemma_line_fields(t);
    let ps = line_fields(t);
    assert(piece(ps, 4) == Some(decimal(t.selected)));
    assert(piece(ps, 5) == Some(decimal(t.viewport_start)));
    lemma_decimal_parse(t.selected, usize::MAX as nat);
    lemma_decimal_parse(t.viewport_start, usize::MAX as nat);
    lemma_sort_label_roundtrip(t.sort);
    assert("files"@ != "content"@);
    assert("false"@ != "true"@);
}

/// The session file body for a list of tabs.
pub open spec fn session_body_spec(ts: Seq<TabView>) -> Seq<char> {
    join_lines(ts.map_values(|t: TabView| session_line_spec(t)))
}

/// The tabs a session file body describes: one per non-blank line.
pub open spec fn parse_session_spec(body: Seq<char>) -> Seq<TabView> {
    nonblank(lines(body)).map_values(|l: Seq<char>| parse_session_line_spec(l))
}

/// The session file body for `tabs` (what `save_session` writes).
pub fn session_body(tabs: &Vec<TabSnapshot>) -> (r: String)
    ensures
        r@ == session_body_spec(tabs@.map_values(|t: TabSnapshot| t@)),
{
    let ghost views = tabs@.map_values(|t: TabSnapshot| t@);
    let ghost ls = views.map_values(|t: TabView| session_line_spec(t));
    let mut s = String::new();
    let mut i: usize = 0;
    while i < tabs.len()
        invariant
            i <= tabs@.len(),
            views == tabs@.map_values(|t: TabSnapshot| t@),
            ls == views.map_values(|t: TabView| session_line_spec(t)),
            s@ == join_lines(ls.take(i as int)),
        decreases tabs@.len() - i,
    {
        let line = session_line(&tabs[i]);
        assert(line@ == ls[i as int]);
        if i > 0 {
            push_char(&mut s, '\n');
            proof {
                lemma_join_push(ls.take(i as int), line@);
                assert(ls.take(i as int).push(line@) =~= ls.take(i + 1));
            }
        } else {
            assert(ls.take(1) =~= seq![line@]);
        }
        let lc = chars_of(line.as_str());
        push_all(&mut s, lc.as_slice());
        i += 1;
    }
    assert(ls.take(tabs@.len() as int) =~= ls);
    s
}

/// The tabs described by a session file body (what `load_session` reads,
/// before dropping tabs whose root no longer exists).
pub fn parse_session(body: &str) -> (r: Vec<TabSnapshot>)
    ensures
        r@.map_values(|t: TabSnapshot| t@) == parse_session_spec(body@),
{
    let v = chars_of(body);
    let ls = split_lines(v.as_slice());
    let ghost all = lines(v@);
    let mut out: Vec<TabSnapshot> = Vec::new();
    let mut i: usize = 0;
    assert(all.take(0) =~= Seq::<Seq<char>>::empty());
    while i < ls.len()
        invariant
            i <= ls@.len(),
            ls@.len() == all.len(),
            forall|k: int| 0 <= k < ls@.len() ==> #[trigger] ls@[k]@ == all[k],
            out@.map_values(|t: TabSnapshot| t@) == nonblank(all.take(i as int)).map_values(
                |l: Seq<char>| parse_session_line_spec(l),
            ),
        decreases ls@.len() - i,
    {
        assert(all.take(i + 1).drop_last() =~= all.take(i as int));
        assert(all.take(i + 1).last() == ls@[i as int]@);
        let t = trim_chars(ls[i].as_slice());
        if t.len() > 0 {
            let line = string_from_chars(ls[i].as_slice());
            if let Some(tab) = parse_session_line(line.as_str()) {
                let ghost before = out@;
                out.push(tab);
                assert(out@.map_values(|t: TabSnapshot| t@) =~= before.map_values(
                    |t: TabSnapshot| t@,
                ).push(tab@));
            }
        }
        assert(out@.map_values(|t: TabSnapshot| t@) =~= nonblank(all.take(i + 1)).map_values(
            |l: Seq<char>| parse_session_line_spec(l),
        ));
        i += 1;
    }
    assert(all.take(ls@.len() as int) =~= all);
    out
}

/// A tab's contents after a save and load: tabs in the query become spaces.
pub open spec fn saved_tab(t: TabView) -> TabView {
    TabView { query: untab(t.query), ..t }
}

/// A tab whose root and query fit on a session line.
pub open spec fn savable_tab(t: TabView) -> bool {
    &&& lacks(t.root, '\t')
    &&& lacks(t.root, '\n')
    &&& lacks(t.query, '\n')
    &&& t.selected <= usize::MAX
    &&& t.viewport_start <= usize::MAX
}

proof fn lemma_session_line_plain(t: TabView)
    requires
        savable_tab(t),
    ensures
        plain_line(session_line_spec(t)),
        trim(session_line_spec(t)).len() > 0,
{
    reveal_strlit("\t");
    reveal_strlit("files");
    reveal_strlit("content");
    reveal_strlit("true");
    reveal_strlit("false");
    reveal_strlit("relevance");
    reveal_strlit("name");
    reveal_strlit("size");
    reveal_strlit("modified");
    let line = session_line_spec(t);
    let fs = line_fields(t);
    lemma_decimal_lacks(t.selected, '\n');
    lemma_decimal_lacks(t.viewport_start, '\n');
    let tab = seq!['\t'];
    let q = untab(t.query);
    assert(lacks(q, '\n'));
    let prefix = t.root + tab + q + tab;
    let m = mode_text(t.search_mode);
    let tail = tab + sort_label(t.sort) + tab + decimal(t.selected) + tab + decimal(
        t.viewport_start,
    ) + tab + bool_text(t.show_hidden);
    assert(line =~= prefix + m + tail);
    assert(lacks(prefix, '\n'));
    assert(lacks(tail, '\n'));
    assert(lacks(line, '\n')) by {
        assert forall|i: int| 0 <= i < line.len() implies #[trigger] line[i] != '\n' by {
            if i < prefix.len() {
                assert(line[i] == prefix[i]);
            } else if i < prefix.len() + m.len() {
                assert(line[i] == m[i - prefix.len()]);
            } else {
                assert(line[i] == tail[i - prefix.len() - m.len()]);
            }
        }
    }
    assert(line.last() == 'e');
    assert(line[prefix.len() as int] == m[0]);
    lemma_trim_nonempty(line, prefix.len() as int);
}

/// Saving a session and loading it back gives the same tabs, with tabs in
/// their queries turned into spaces, when every root has no tab or line
/// break and every query no line break.
pub proof fn lemma_session_roundtrip(ts: Seq<TabView>)
    requires
        forall|i: int| 0 <= i < ts.len() ==> savable_tab(#[trigger] ts[i]),
    ensures
        parse_session_spec(session_body_spec(ts)) == ts.map_values(|t: TabView| saved_tab(t)),
{
    let ls = ts.map_values(|t: TabView| session_line_spec(t));
    assert forall|i: int| 0 <= i < ls.len() implies plain_line(#[trigger] ls[i]) && trim(
        ls[i],
    ).len() > 0 by {
        assert(savable_tab(ts[i]));
        lemma_session_line_plain(ts[i]);
    }
    lemma_lines_join(ls);
    lemma_nonblank_all(ls);
    assert forall|i: int| 0 <= i < ts.len() implies parse_session_line_spec(
        #[trigger] ls[i],
    ) == saved_tab(ts[i]) by {
        assert(savable_tab(ts[i]));
        lemma_session_line_roundtrip(ts[i]);
    }
    assert(ls.map_values(|l: Seq<char>| parse_session_line_spec(l)) =~= ts.map_values(
        |t: TabView| saved_tab(t),
    ));
}

} // verus!
