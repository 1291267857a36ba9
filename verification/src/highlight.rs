//! Syntax highlighting of file previews and search snippets.
//!
//! Parsing and colouring are syntect's work. This module picks the syntax
//! (by extension, else by the first line, else plain text) and the theme
//! (base16 mocha, else Solarized dark, else the first), cuts the text into
//! lines the way syntect's `LinesWithEndings` does, and turns the
//! highlighted pieces of each line into display spans. It proves which
//! syntax and theme are used, that each row's spans are syntect's pieces
//! for that line with line breaks trimmed and empty pieces dropped, that
//! they spell out the line without its line break, and that no span is
//! empty or holds a line break.

use crate::sorting::{lemma_text_total, text_lt};
use crate::text::{
    chars_of, first_index, lacks, lemma_first_index, lemma_first_index_props, slice_range,
    string_from_chars, string_from_range,
};
use syntect::easy::HighlightLines;
use syntect::highlighting::{Style, ThemeSet};
use syntect::parsing::SyntaxSet;
use vstd::prelude::*;

verus! {

#[verifier::external_type_specification]
#[verifier::external_body]
pub struct ExSyntaxSet(SyntaxSet);

#[verifier::external_type_specification]
#[verifier::external_body]
pub struct ExThemeSet(ThemeSet);

/// The names under which a theme set holds its themes (the keys of
/// `ThemeSet::themes`).
pub uninterp spec fn theme_names(ts: ThemeSet) -> Set<Seq<char>>;

/// The names of the syntaxes a syntax set holds.
pub uninterp spec fn syntax_names(ss: SyntaxSet) -> Set<Seq<char>>;

/// The theme set holds at least one theme.
pub open spec fn has_themes(ts: ThemeSet) -> bool {
    exists|k: Seq<char>| #[trigger] theme_names(ts).contains(k)
}

/// `k` is the set's first theme name: held, and no held name comes
/// before it.
pub open spec fn least_theme_name(ts: ThemeSet, k: Seq<char>) -> bool {
    &&& theme_names(ts).contains(k)
    &&& forall|j: Seq<char>| #[trigger] theme_names(ts).contains(j) ==> !text_lt(j, k)
}

/// The name of the syntax `SyntaxSet::find_syntax_by_extension` finds for
/// an extension, if any.
pub uninterp spec fn extension_syntax(ss: SyntaxSet, ext: Seq<char>) -> Option<Seq<char>>;

/// The name of the syntax `SyntaxSet::find_syntax_by_first_line` finds for
/// a text, if any.
pub uninterp spec fn first_line_syntax(ss: SyntaxSet, text: Seq<char>) -> Option<Seq<char>>;

/// The pieces, text and foreground colour, that `HighlightLines` gives for
/// the last of `fed` after the ones before it, when started on the set's
/// syntax named `syntax` and the theme under `theme`; `None` where syntect
/// reports an error.
pub uninterp spec fn highlighted_line(
    ss: SyntaxSet,
    ts: ThemeSet,
    syntax: Seq<char>,
    theme: Seq<char>,
    fed: Seq<Seq<char>>,
) -> Option<Seq<(Seq<char>, (u8, u8, u8))>>;

/// `two_face::syntax::extra_no_newlines`: syntect's default syntaxes with
/// two-face's extra ones, loaded from the dump the crate ships. That dump
/// holds the "Plain Text" syntax, which syntect's `find_syntax_plain_text`
/// expects of every set; nothing else is claimed of which syntaxes it holds.
#[verifier::external_body]
fn load_syntax_set() -> (r: SyntaxSet)
    ensures
        syntax_names(r).contains("Plain Text"@),
{
    two_face::syntax::extra_no_newlines()
}

/// `ThemeSet::load_defaults`: syntect documents the keys of the map it
/// loads; the contract claims the one this module asks for first.
#[verifier::external_body]
fn load_theme_set() -> (r: ThemeSet)
    ensures
        theme_names(r).contains("base16-mocha.dark"@),
        theme_names(r).contains("Solarized (dark)"@),
{
    ThemeSet::load_defaults()
}

/// `BTreeMap::contains_key` on `ThemeSet::themes`.
#[verifier::external_body]
fn has_theme(ts: &ThemeSet, name: &str) -> (r: bool)
    ensures
        r == theme_names(*ts).contains(name@),
{
    ts.themes.contains_key(name)
}

/// `keys().next()` on `ThemeSet::themes`: the least key in `String`'s
/// order, which on UTF-8 text is the order of the characters; none for an
/// empty set.
#[verifier::external_body]
fn first_theme_name(ts: &ThemeSet) -> (r: Option<String>)
    ensures
        r is Some == has_themes(*ts),
        r matches Some(k) ==> least_theme_name(*ts, k@),
{
    ts.themes.keys().next().cloned()
}

/// `SyntaxSet::find_syntax_by_name`: a syntax comes back exactly when the
/// set holds one under that name.
#[verifier::external_body]
fn syntax_by_name(ss: &SyntaxSet, name: &str) -> (r: bool)
    ensures
        r == syntax_names(*ss).contains(name@),
{
    ss.find_syntax_by_name(name).is_some()
}

/// `SyntaxSet::find_syntax_by_extension`, giving the found syntax's name,
/// which the set holds.
#[verifier::external_body]
fn syntax_by_extension(ss: &SyntaxSet, ext: &str) -> (r: Option<String>)
    ensures
        opt_text(r) == extension_syntax(*ss, ext@),
        r matches Some(n) ==> syntax_names(*ss).contains(n@),
{
    ss.find_syntax_by_extension(ext).map(|s| s.name.clone())
}

/// `SyntaxSet::find_syntax_by_first_line`, giving the found syntax's name,
/// which the set holds.
#[verifier::external_body]
fn syntax_by_first_line(ss: &SyntaxSet, text: &str) -> (r: Option<String>)
    ensures
        opt_text(r) == first_line_syntax(*ss, text@),
        r matches Some(n) ==> syntax_names(*ss).contains(n@),
{
    ss.find_syntax_by_first_line(text).map(|s| s.name.clone())
}

/// `HighlightLines::new` on the set's syntax named `syntax` and the theme
/// under `theme`, then `HighlightLines::highlight_line` on each line in
/// order, each piece given as its text and its foreground colour, `None`
/// for syntect's error. A line's result depends on it and the lines before
/// it alone (see [`highlighted_line`]); syntect documents that the pieces
/// put together make the line. Both lookups panic on a missing name; that
/// input is left out.
#[verifier::external_body]
fn highlight_all(ss: &SyntaxSet, ts: &ThemeSet, syntax: &str, theme: &str, lines: &Vec<String>) -> (r: Vec<
    Option<Vec<(String, (u8, u8, u8))>>,
>)
    requires
        syntax_names(*ss).contains(syntax@),
        theme_names(*ts).contains(theme@),
    ensures
        r@.len() == lines@.len(),
        forall|i: int|
            0 <= i < r@.len() ==> #[trigger] opt_pieces(r@[i]) == highlighted_line(
                *ss,
                *ts,
                syntax@,
                theme@,
                texts_of(lines@).take(i + 1),
            ),
        forall|i: int|
            0 <= i < r@.len() ==> (#[trigger] r@[i] matches Some(v) ==> concat(texts(pieces_view(v@)))
                == lines@[i]@),
{
    let mut h = HighlightLines::new(ss.find_syntax_by_name(syntax).unwrap(), &ts.themes[theme]);
    lines.iter().map(
        |l| h.highlight_line(l, ss).ok().map(
            |v| v.into_iter().map(|(s, t)| (t.to_string(), (s.foreground.r, s.foreground.g, s.foreground.b))).collect(),
        ),
    ).collect()
}

/// The foreground of `Style::default()`, which syntect sets to black.
#[verifier::external_body]
fn default_foreground() -> (r: (u8, u8, u8))
    ensures
        r == (0u8, 0u8, 0u8),
{
    let s = Style::default();
    (s.foreground.r, s.foreground.g, s.foreground.b)
}

/// An optional text by its view.
pub open spec fn opt_text(o: Option<String>) -> Option<Seq<char>> {
    match o {
        Some(t) => Some(t@),
        None => None,
    }
}

/// Texts by their views.
pub open spec fn texts_of(v: Seq<String>) -> Seq<Seq<char>> {
    v.map_values(|t: String| t@)
}

/// Optional pieces by their views.
pub open spec fn opt_pieces(o: Option<Vec<(String, (u8, u8, u8))>>) -> Option<
    Seq<(Seq<char>, (u8, u8, u8))>,
> {
    match o {
        Some(v) => Some(pieces_view(v@)),
        None => None,
    }
}

/// The loaded syntaxes and themes that highlighting draws on.
pub struct SyntaxAssets {
    syntaxes: SyntaxSet,
    themes: ThemeSet,
}

impl SyntaxAssets {
    /// There is a theme to fall back on and a plain-text syntax.
    pub closed spec fn wf(&self) -> bool {
        &&& has_themes(self.themes)
        &&& syntax_names(self.syntaxes).contains("Plain Text"@)
    }

    /// The syntaxes.
    pub closed spec fn syntax_set(&self) -> SyntaxSet {
        self.syntaxes
    }

    /// The themes.
    pub closed spec fn theme_set(&self) -> ThemeSet {
        self.themes
    }

    /// Loads the bundled syntaxes and the default themes; `None` when the
    /// syntaxes lack the plain-text one that highlighting falls back on,
    /// which the bundled ones never do.
    pub fn load() -> (r: Option<SyntaxAssets>)
        ensures
            r is Some,
            r matches Some(a) ==> a.wf() && theme_names(a.theme_set()).contains("base16-mocha.dark"@),
    {
        let syntaxes = load_syntax_set();
        let themes = load_theme_set();
        assert(theme_names(themes).contains("base16-mocha.dark"@));
        let plain = syntax_by_name(&syntaxes, "Plain Text");
        if plain {
            Some(SyntaxAssets { syntaxes, themes })
        } else {
            None
        }
    }
}

/// The theme used: "base16-mocha.dark" when the set holds it, else
/// "Solarized (dark)" when it holds that, else the set's first.
pub open spec fn chosen_theme(ts: ThemeSet) -> Seq<char> {
    if theme_names(ts).contains("base16-mocha.dark"@) {
        "base16-mocha.dark"@
    } else if theme_names(ts).contains("Solarized (dark)"@) {
        "Solarized (dark)"@
    } else {
        choose|k: Seq<char>| least_theme_name(ts, k)
    }
}

/// The syntax used: the extension's, else the first line's, else plain
/// text.
pub open spec fn chosen_syntax(ss: SyntaxSet, extension: Seq<char>, content: Seq<char>) -> Seq<char> {
    match extension_syntax(ss, extension) {
        Some(n) => n,
        None => match first_line_syntax(ss, content) {
            Some(n) => n,
            None => "Plain Text"@,
        },
    }
}

proof fn lemma_least_theme_unique(ts: ThemeSet, a: Seq<char>, b: Seq<char>)
    requires
        least_theme_name(ts, a),
        least_theme_name(ts, b),
    ensures
        a == b,
{
    lemma_text_total(a, b);
    assert(!text_lt(a, b));
    assert(!text_lt(b, a));
}

/// The theme's name (see [`chosen_theme`]).
fn pick_theme(ts: &ThemeSet) -> (r: String)
    requires
        has_themes(*ts),
    ensures
        r@ == chosen_theme(*ts),
        theme_names(*ts).contains(r@),
{
    if has_theme(ts, "base16-mocha.dark") {
        "base16-mocha.dark".to_string()
    } else if has_theme(ts, "Solarized (dark)") {
        "Solarized (dark)".to_string()
    } else {
        let f = first_theme_name(ts).unwrap();
        proof {
            let k = choose|k: Seq<char>| least_theme_name(*ts, k);
            assert(least_theme_name(*ts, f@));
            lemma_least_theme_unique(*ts, k, f@);
        }
        f
    }
}

/// The syntax's name (see [`chosen_syntax`]).
fn pick_syntax(ss: &SyntaxSet, extension: &str, content: &str) -> (r: String)
    requires
        syntax_names(*ss).contains("Plain Text"@),
    ensures
        r@ == chosen_syntax(*ss, extension@, content@),
        syntax_names(*ss).contains(r@),
{
    match syntax_by_extension(ss, extension) {
        Some(s) => s,
        None => match syntax_by_first_line(ss, content) {
            Some(s) => s,
            None => "Plain Text".to_string(),
        },
    }
}

/// A highlighted span: its text and its foreground colour.
pub struct Span {
    pub text: String,
    pub rgb: (u8, u8, u8),
}

impl View for Span {
    type V = (Seq<char>, (u8, u8, u8));

    open spec fn view(&self) -> (Seq<char>, (u8, u8, u8)) {
        (self.text@, self.rgb)
    }
}

/// `syntect::util::LinesWithEndings`: the lines of `s`, each keeping its
/// `\n`, the last one without it when `s` does not end in one.
pub open spec fn lines_with_endings(s: Seq<char>) -> Seq<Seq<char>>
    decreases s.len(),
{
    if s.len() == 0 {
        seq![]
    } else {
        match first_index(s, '\n') {
            None => seq![s],
            Some(i) => {
                proof {
                    lemma_first_index_props(s, '\n');
                }
                seq![s.take(i + 1)] + lines_with_endings(s.skip(i + 1))
            },
        }
    }
}

/// The texts put one after the other.
pub open spec fn concat(ps: Seq<Seq<char>>) -> Seq<char>
    decreases ps.len(),
{
    if ps.len() == 0 {
        seq![]
    } else {
        concat(ps.drop_last()) + ps.last()
    }
}

/// Highlighted pieces by their views.
pub open spec fn pieces_view(v: Seq<(String, (u8, u8, u8))>) -> Seq<(Seq<char>, (u8, u8, u8))> {
    v.map_values(|p: (String, (u8, u8, u8))| (p.0@, p.1))
}

/// Spans by their views.
pub open spec fn spans_view(v: Seq<Span>) -> Seq<(Seq<char>, (u8, u8, u8))> {
    v.map_values(|s: Span| s@)
}

/// The texts of coloured pieces.
pub open spec fn texts(v: Seq<(Seq<char>, (u8, u8, u8))>) -> Seq<Seq<char>> {
    v.map_values(|p: (Seq<char>, (u8, u8, u8))| p.0)
}

/// `str::trim_end_matches('\n')`.
pub open spec fn trim_newlines(t: Seq<char>) -> Seq<char>
    decreases t.len(),
{
    if t.len() > 0 && t.last() == '\n' {
        trim_newlines(t.drop_last())
    } else {
        t
    }
}

/// The pieces with trailing line breaks trimmed, those left empty dropped.
pub open spec fn kept_spans(v: Seq<(Seq<char>, (u8, u8, u8))>) -> Seq<(Seq<char>, (u8, u8, u8))>
    decreases v.len(),
{
    if v.len() == 0 {
        seq![]
    } else {
        let t = trim_newlines(v.last().0);
        if t.len() == 0 {
            kept_spans(v.drop_last())
        } else {
            kept_spans(v.drop_last()).push((t, v.last().1))
        }
    }
}

/// A line without its final `\n`.
pub open spec fn strip_newline(l: Seq<char>) -> Seq<char> {
    if l.len() > 0 && l.last() == '\n' {
        l.drop_last()
    } else {
        l
    }
}

/// The text a row of spans shows.
pub open spec fn row_text(row: Seq<Span>) -> Seq<char> {
    concat(texts(spans_view(row)))
}

/// No span of the row is empty or holds a line break.
pub open spec fn clean_row(row: Seq<Span>) -> bool {
    forall|j: int|
        0 <= j < row.len() ==> (#[trigger] row[j]).text@.len() > 0 && lacks(row[j].text@, '\n')
}

/// A `\n` stands only at the end of `l`, if anywhere.
pub open spec fn newline_at_end_only(l: Seq<char>) -> bool {
    forall|j: int| 0 <= j < l.len() - 1 ==> #[trigger] l[j] != '\n'
}

proof fn lemma_lines_shape(s: Seq<char>)
    ensures
        lines_with_endings(s).len() == 0 <==> s.len() == 0,
        forall|i: int|
            0 <= i < lines_with_endings(s).len() ==> newline_at_end_only(
                #[trigger] lines_with_endings(s)[i],
            ),
    decreases s.len(),
{
    if s.len() > 0 {
        lemma_first_index_props(s, '\n');
        match first_index(s, '\n') {
            None => {
                assert(lines_with_endings(s) =~= seq![s]);
                assert forall|i: int| 0 <= i < lines_with_endings(s).len() implies newline_at_end_only(
                    #[trigger] lines_with_endings(s)[i],
                ) by {
                    assert forall|j: int| 0 <= j < s.len() - 1 implies #[trigger] s[j] != '\n' by {
                        if s[j] == '\n' {
                            assert(s.contains('\n'));
                        }
                    }
                }
            },
            Some(k) => {
                let rest = s.skip(k + 1);
                lemma_lines_shape(rest);
                let ls = lines_with_endings(s);
                assert(ls =~= seq![s.take(k + 1)] + lines_with_endings(rest));
                assert forall|i: int| 0 <= i < ls.len() implies newline_at_end_only(
                    #[trigger] ls[i],
                ) by {
                    if i > 0 {
                        assert(ls[i] == lines_with_endings(rest)[i - 1]);
                    } else {
                        assert forall|j: int| 0 <= j < s.take(k + 1).len() - 1 implies #[trigger] s.take(
                            k + 1,
                        )[j] != '\n' by {
                            assert(s.take(k + 1)[j] == s[j]);
                        }
                    }
                }
            },
        }
    }
}

proof fn lemma_trim_newlines_prefix(t: Seq<char>)
    ensures
        trim_newlines(t).len() <= t.len(),
        trim_newlines(t).len() > 0 ==> trim_newlines(t).last() != '\n',
        trim_newlines(t) =~= t.take(trim_newlines(t).len() as int),
    decreases t.len(),
{
    if t.len() > 0 && t.last() == '\n' {
        lemma_trim_newlines_prefix(t.drop_last());
    }
}

proof fn lemma_concat_push(ps: Seq<Seq<char>>, x: Seq<char>)
    ensures
        concat(ps.push(x)) == concat(ps) + x,
{
    assert(ps.push(x).drop_last() =~= ps);
}

/// The row kept from pieces that spell out one line spells out the line
/// without its break, in spans that are neither empty nor hold a break.
proof fn lemma_kept_row(v: Seq<(Seq<char>, (u8, u8, u8))>, l: Seq<char>)
    requires
        concat(texts(v)) == l,
        newline_at_end_only(l),
    ensures
        concat(texts(kept_spans(v))) == strip_newline(l),
        forall|j: int|
            0 <= j < kept_spans(v).len() ==> (#[trigger] kept_spans(v)[j]).0.len() > 0 && lacks(
                kept_spans(v)[j].0,
                '\n',
            ),
    decreases v.len(),
{
    if v.len() == 0 {
        assert(texts(v) =~= seq![]);
        assert(kept_spans(v) =~= seq![]);
        assert(texts(kept_spans(v)) =~= seq![]);
    } else {
        let w = v.drop_last();
        let p = v.last().0;
        assert(texts(w).push(p) =~= texts(v));
        lemma_concat_push(texts(w), p);
        let front = concat(texts(w));
        assert(l =~= front + p);
        assert(front =~= l.take(front.len() as int));
        if front.len() > 0 {
            assert forall|j: int| 0 <= j < front.len() - 1 implies #[trigger] front[j] != '\n' by {
                assert(front[j] == l[j]);
            }
        }
        let front_clean = lacks(front, '\n');
        if p.len() > 0 {
            assert forall|j: int| 0 <= j < front.len() implies #[trigger] front[j] != '\n' by {
                assert(front[j] == l[j]);
            }
        }
        lemma_kept_row(w, front);
        lemma_trim_newlines_prefix(p);
        let t = trim_newlines(p);
        assert forall|j: int| 0 <= j < t.len() implies #[trigger] t[j] != '\n' by {
            assert(t[j] == p[j]);
            assert(p[j] == l[front.len() + j]);
            if j == t.len() - 1 {
                assert(t.last() == t[j]);
            }
        }
        if p.len() == 0 {
            assert(strip_newline(front) == strip_newline(l));
        } else if p.last() == '\n' {
            assert(trim_newlines(p) == trim_newlines(p.drop_last()));
            lemma_trim_newlines_prefix(p.drop_last());
            assert forall|j: int| 0 <= j < p.len() - 1 implies #[trigger] p[j] != '\n' by {
                assert(p[j] == l[front.len() + j]);
            }
            assert(trim_newlines(p.drop_last()) =~= p.drop_last()) by {
                if p.drop_last().len() > 0 {
                    assert(p.drop_last().last() == p[p.len() - 2]);
                }
            }
            assert(strip_newline(front) == front);
            assert(strip_newline(l) =~= front + p.drop_last());
            if t.len() > 0 {
                let kw = kept_spans(w);
                assert(kept_spans(v) == kw.push((t, v.last().1)));
                assert(texts(kw).push(t) =~= texts(kept_spans(v)));
                lemma_concat_push(texts(kw), t);
            }
        } else {
            assert(t == p);
            assert(strip_newline(front) == front);
            assert(strip_newline(l) == l);
            let kw = kept_spans(w);
            assert(kept_spans(v) == kw.push((t, v.last().1)));
            assert(texts(kw).push(t) =~= texts(kept_spans(v)));
            lemma_concat_push(texts(kw), t);
        }
    }
}

/// `str::trim_end_matches('\n')` on a string.
pub(crate) fn trim_trailing_newlines(s: &String) -> (r: (String, bool))
    ensures
        r.0@ == trim_newlines(s@),
        r.1 == (r.0@.len() > 0),
{
    let v = chars_of(s.as_str());
    let mut k: usize = v.len();
    assert(v@.take(k as int) =~= v@);
    while k > 0 && v[k - 1] == '\n'
        invariant
            k <= v@.len(),
            trim_newlines(v@) == trim_newlines(v@.take(k as int)),
        decreases k,
    {
        assert(v@.take(k as int).drop_last() =~= v@.take(k - 1));
        k -= 1;
    }
    (string_from_range(v.as_slice(), 0, k), k > 0)
}

/// The spans of one row: each piece with its trailing line breaks trimmed,
/// the pieces left empty dropped, the colours kept.
pub fn spans_from_pieces(pieces: Vec<(String, (u8, u8, u8))>) -> (r: Vec<Span>)
    ensures
        spans_view(r@) == kept_spans(pieces_view(pieces@)),
{
    let ghost pv = pieces_view(pieces@);
    let mut out: Vec<Span> = Vec::new();
    let mut i: usize = 0;
    assert(pv.take(0) =~= seq![]);
    assert(spans_view(out@) =~= seq![]);
    while i < pieces.len()
        invariant
            i <= pieces@.len(),
            pv == pieces_view(pieces@),
            spans_view(out@) == kept_spans(pv.take(i as int)),
        decreases pieces@.len() - i,
    {
        let (t, nonempty) = trim_trailing_newlines(&pieces[i].0);
        let rgb = pieces[i].1;
        assert(pv.take(i + 1).drop_last() =~= pv.take(i as int));
        assert(pv.take(i + 1).last() == pv[i as int]);
        if nonempty {
            let ghost before = out@;
            let ghost tv = t@;
            out.push(Span { text: t, rgb });
            assert(spans_view(out@) =~= spans_view(before).push((tv, rgb)));
        }
        i += 1;
    }
    assert(pv.take(pieces@.len() as int) =~= pv);
    out
}

/// Cuts a text into its lines, each keeping its `\n` (see
/// [`lines_with_endings`]).
pub fn split_with_endings(v: &[char]) -> (r: Vec<Vec<char>>)
    ensures
        r@.len() == lines_with_endings(v@).len(),
        forall|i: int| 0 <= i < r@.len() ==> #[trigger] r@[i]@ == lines_with_endings(v@)[i],
{
    let mut out: Vec<Vec<char>> = Vec::new();
    let ghost mut acc: Seq<Seq<char>> = seq![];
    let mut start: usize = 0;
    let mut i: usize = 0;
    assert(v@.skip(0) =~= v@);
    assert(acc + lines_with_endings(v@) =~= lines_with_endings(v@));
    while i < v.len()
        invariant
            start <= i <= v@.len(),
            forall|j: int| start <= j < i ==> #[trigger] v@[j] != '\n',
            out@.len() == acc.len(),
            forall|k: int| 0 <= k < acc.len() ==> #[trigger] out@[k]@ == acc[k],
            lines_with_endings(v@) == acc + lines_with_endings(v@.skip(start as int)),
        decreases v@.len() - i,
    {
        if v[i] == '\n' {
            let ghost rest = v@.skip(start as int);
            proof {
                assert forall|j: int| 0 <= j < i - start implies #[trigger] rest[j] != '\n' by {
                    assert(rest[j] == v@[j + start]);
                }
                lemma_first_index(rest, '\n', i - start);
                assert(rest.skip(i - start + 1) =~= v@.skip(i + 1));
            }
            let line = slice_range(v, start, i + 1);
            assert(line@ =~= rest.take(i - start + 1));
            out.push(line);
            proof {
                let old_acc = acc;
                acc = acc.push(line@);
                assert(lines_with_endings(v@) =~= acc + lines_with_endings(v@.skip(i + 1))) by {
                    assert(old_acc + (seq![line@] + lines_with_endings(v@.skip(i + 1))) =~= acc
                        + lines_with_endings(v@.skip(i + 1)));
                }
            }
            start = i + 1;
        }
        i += 1;
    }
    let ghost rest = v@.skip(start as int);
    if start < v.len() {
        let line = slice_range(v, start, v.len());
        proof {
            assert forall|j: int| 0 <= j < rest.len() implies #[trigger] rest[j] != '\n' by {
                assert(rest[j] == v@[j + start]);
            }
            lemma_first_index(rest, '\n', rest.len() as int);
            assert(line@ =~= rest);
        }
        out.push(line);
        proof {
            acc = acc.push(line@);
            assert(lines_with_endings(v@) =~= acc);
        }
    } else {
        assert(rest.len() == 0);
        assert(lines_with_endings(v@) =~= acc);
    }
    out
}

/// The spans of row `i` of `ls`: syntect's pieces for line `i` after the
/// lines before it, or the whole line in the default black where syntect
/// reports an error; line breaks trimmed, pieces left empty dropped.
pub open spec fn row_spans(
    ss: SyntaxSet,
    ts: ThemeSet,
    syntax: Seq<char>,
    theme: Seq<char>,
    ls: Seq<Seq<char>>,
    i: int,
) -> Seq<(Seq<char>, (u8, u8, u8))> {
    kept_spans(
        match highlighted_line(ss, ts, syntax, theme, ls.take(i + 1)) {
            Some(p) => p,
            None => seq![(ls[i], (0u8, 0u8, 0u8))],
        },
    )
}

/// The spans of row `i` of `content` as the preview shows it (see
/// [`row_spans`], [`chosen_syntax`], [`chosen_theme`]).
pub open spec fn preview_row(assets: SyntaxAssets, content: Seq<char>, extension: Seq<char>, i: int) -> Seq<
    (Seq<char>, (u8, u8, u8)),
> {
    row_spans(
        assets.syntax_set(),
        assets.theme_set(),
        chosen_syntax(assets.syntax_set(), extension, content),
        chosen_theme(assets.theme_set()),
        lines_with_endings(content),
        i,
    )
}

/// Highlights up to `max_lines` lines of `content`, picking the syntax by
/// `extension`, else by the first line, else plain text, and the theme
/// "base16-mocha.dark", else "Solarized (dark)", else the first. Row `i`
/// holds syntect's pieces for line `i` (see [`preview_row`]); it shows the
/// line without its line break, cut into coloured spans that are never
/// empty and hold no line break.
pub fn highlight_lines(assets: &SyntaxAssets, content: &str, extension: &str, max_lines: usize) -> (r:
    Vec<Vec<Span>>)
    requires
        assets.wf(),
    ensures
        r@.len() == (if max_lines < lines_with_endings(content@).len() {
            max_lines as int
        } else {
            lines_with_endings(content@).len() as int
        }),
        forall|i: int|
            0 <= i < r@.len() ==> spans_view(#[trigger] r@[i]@) == preview_row(
                *assets,
                content@,
                extension@,
                i,
            ),
        forall|i: int|
            0 <= i < r@.len() ==> row_text(#[trigger] r@[i]@) == strip_newline(
                lines_with_endings(content@)[i],
            ) && clean_row(r@[i]@),
{
    let theme = pick_theme(&assets.themes);
    let syntax = pick_syntax(&assets.syntaxes, extension, content);
    let chars = chars_of(content);
    let lines = split_with_endings(chars.as_slice());
    proof {
        lemma_lines_shape(content@);
    }
    let ghost ls = lines_with_endings(content@);
    let n = if lines.len() < max_lines {
        lines.len()
    } else {
        max_lines
    };
    let mut fed: Vec<String> = Vec::new();
    let mut k: usize = 0;
    while k < n
        invariant
            k <= n <= lines@.len(),
            lines@.len() == ls.len(),
            forall|j: int| 0 <= j < lines@.len() ==> #[trigger] lines@[j]@ == ls[j],
            texts_of(fed@) == ls.take(k as int),
        decreases n - k,
    {
        let ghost before = texts_of(fed@);
        fed.push(string_from_chars(lines[k].as_slice()));
        assert(texts_of(fed@) =~= before.push(ls[k as int]));
        assert(ls.take(k + 1) =~= ls.take(k as int).push(ls[k as int]));
        k += 1;
    }
    proof {
        assert(texts_of(fed@).len() == fed@.len());
    }
    let ghost ss = assets.syntaxes;
    let ghost ts = assets.themes;
    let mut results = highlight_all(&assets.syntaxes, &assets.themes, syntax.as_str(), theme.as_str(), &fed);
    let ghost all = results@;
    let mut out: Vec<Vec<Span>> = Vec::new();
    let mut i: usize = 0;
    while i < n
        invariant
            n <= lines@.len() == ls.len(),
            n <= max_lines,
            n == max_lines || n == lines@.len(),
            ls == lines_with_endings(content@),
            forall|k2: int| 0 <= k2 < ls.len() ==> newline_at_end_only(#[trigger] ls[k2]),
            texts_of(fed@) == ls.take(n as int),
            fed@.len() == n,
            forall|j: int| 0 <= j < lines@.len() ==> #[trigger] lines@[j]@ == ls[j],
            all.len() == n,
            forall|j: int|
                0 <= j < n ==> #[trigger] opt_pieces(all[j]) == highlighted_line(
                    ss,
                    ts,
                    syntax@,
                    theme@,
                    texts_of(fed@).take(j + 1),
                ),
            forall|j: int|
                0 <= j < n ==> (#[trigger] all[j] matches Some(v) ==> concat(texts(pieces_view(v@)))
                    == fed@[j]@),
            i <= n,
            results@ == all.skip(i as int),
            ss == assets.syntax_set(),
            ts == assets.theme_set(),
            syntax@ == chosen_syntax(ss, extension@, content@),
            theme@ == chosen_theme(ts),
            out@.len() == i,
            forall|k2: int|
                0 <= k2 < i ==> spans_view(#[trigger] out@[k2]@) == row_spans(
                    ss,
                    ts,
                    syntax@,
                    theme@,
                    ls,
                    k2,
                ) && row_text(out@[k2]@) == strip_newline(ls[k2]) && clean_row(out@[k2]@),
        decreases n - i,
    {
        assert(results@[0] == all[i as int]);
        let got = results.remove(0);
        assert(results@ =~= all.skip(i + 1));
        proof {
            assert(texts_of(fed@)[i as int] == fed@[i as int]@);
            assert(fed@[i as int]@ == ls[i as int]);
            assert(texts_of(fed@).take(i + 1) =~= ls.take(i + 1));
        }
        let ghost hl = highlighted_line(ss, ts, syntax@, theme@, ls.take(i + 1));
        assert(opt_pieces(got) == hl);
        let pieces = match got {
            Some(v) => {
                assert(hl == Some(pieces_view(v@)));
                v
            },
            None => {
                assert(hl is None);
                let rgb = default_foreground();
                let mut v: Vec<(String, (u8, u8, u8))> = Vec::new();
                v.push((string_from_chars(lines[i].as_slice()), rgb));
                proof {
                    let t = texts(pieces_view(v@));
                    assert(t =~= seq![ls[i as int]]);
                    assert(t.drop_last() =~= seq![]);
                    assert(concat(t.drop_last()) =~= seq![]);
                    assert(concat(t) =~= ls[i as int]);
                    assert(pieces_view(v@) =~= seq![(ls[i as int], (0u8, 0u8, 0u8))]);
                }
                v
            },
        };
        proof {
            assert(pieces_view(pieces@) == match highlighted_line(ss, ts, syntax@, theme@, ls.take(i + 1)) {
                Some(p) => p,
                None => seq![(ls[i as int], (0u8, 0u8, 0u8))],
            });
            assert(concat(texts(pieces_view(pieces@))) == ls[i as int]);
            lemma_kept_row(pieces_view(pieces@), ls[i as int]);
        }
        let row = spans_from_pieces(pieces);
        proof {
            let kv = kept_spans(pieces_view(pieces@));
            assert(spans_view(row@) == kv);
            assert forall|j: int| 0 <= j < row@.len() implies (#[trigger] row@[j]).text@.len() > 0
                && lacks(row@[j].text@, '\n') by {
                assert(spans_view(row@)[j] == row@[j]@);
                assert(kv[j].0 == row@[j].text@);
            }
        }
        out.push(row);
        proof {
            assert forall|k2: int| 0 <= k2 < i + 1 implies spans_view(#[trigger] out@[k2]@) == row_spans(
                ss,
                ts,
                syntax@,
                theme@,
                ls,
                k2,
            ) && row_text(out@[k2]@) == strip_newline(ls[k2]) && clean_row(out@[k2]@) by {
                if k2 == i {
                    assert(out@[k2] == row);
                }
            }
        }
        i += 1;
    }
    out
}

/// Highlights one line, as for a search snippet: the spans of its first
/// line, none for empty text.
pub fn highlight_one(assets: &SyntaxAssets, line: &str, extension: &str) -> (r: Vec<Span>)
    requires
        assets.wf(),
    ensures
        line@.len() == 0 ==> r@.len() == 0,
        line@.len() > 0 ==> spans_view(r@) == preview_row(*assets, line@, extension@, 0),
        line@.len() > 0 ==> row_text(r@) == strip_newline(lines_with_endings(line@)[0])
            && clean_row(r@),
{
    proof {
        lemma_lines_shape(line@);
    }
    let mut rows = highlight_lines(assets, line, extension, 1);
    if rows.len() > 0 {
        let first = rows.remove(0);
        first
    } else {
        Vec::new()
    }
}

} // verus!
