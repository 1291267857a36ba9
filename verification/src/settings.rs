//! The settings file: `show_hidden=` and `sort=` lines.

use vstd::prelude::*;
use crate::text::{
    chars_eq, chars_of, first_index, is_space, lemma_first_index_concat, lemma_first_index_none,
    lemma_trim_fixed, lemma_trim_id, lines, push_str, split_lines, split_once, split_once_chars, string_from_chars,
    trim, trim_chars,
};

verus! {

/// User settings persisted across launches.
pub struct Settings {
    pub show_hidden: bool,
    pub sort: String,
}

impl Default for Settings {
    /// Hidden files off, relevance sort.
    fn default() -> (r: Settings)
        ensures
            r.show_hidden == false,
            r.sort@ == "relevance"@,
    {
        Settings { show_hidden: false, sort: "relevance".to_owned() }
    }
}

/// The contents of a settings value: `(show_hidden, sort)`.
pub open spec fn settings_view(s: Settings) -> (bool, Seq<char>) {
    (s.show_hidden, s.sort@)
}

/// The value that turns `show_hidden` on.
pub open spec fn truthy(v: Seq<char>) -> bool {
    v == "true"@ || v == "1"@ || v == "yes"@
}

/// The effect of one line: blank lines, `#` comments and lines without
/// `=` are skipped; `show_hidden` and `sort` keys (trimmed) set their value
/// (trimmed); other keys are ignored.
pub open spec fn apply_setting(s: (bool, Seq<char>), line: Seq<char>) -> (bool, Seq<char>) {
    let l = trim(line);
    if l.len() == 0 || l[0] == '#' {
        s
    } else {
        match split_once(l, '=') {
            None => s,
            Some((k, v)) => if trim(k) == "show_hidden"@ {
                (truthy(trim(v)), s.1)
            } else if trim(k) == "sort"@ {
                (s.0, trim(v))
            } else {
                s
            },
        }
    }
}

/// Settings after reading the lines `ls` in order, from the defaults.
pub open spec fn apply_settings(ls: Seq<Seq<char>>) -> (bool, Seq<char>)
    decreases ls.len(),
{
    if ls.len() == 0 {
        (false, "relevance"@)
    } else {
        apply_setting(apply_settings(ls.drop_last()), ls.last())
    }
}

/// The settings a file body describes.
pub open spec fn parse_settings_spec(body: Seq<char>) -> (bool, Seq<char>) {
    apply_settings(lines(body))
}

/// `true` / `false`, as `bool` is displayed.
pub open spec fn bool_text(b: bool) -> Seq<char> {
    if b {
        "true"@
    } else {
        "false"@
    }
}

/// The body written for settings `s`.
pub open spec fn settings_body_spec(show_hidden: bool, sort: Seq<char>) -> Seq<char> {
    "show_hidden="@ + bool_text(show_hidden) + "\n"@ + "sort="@ + sort + "\n"@
}

/// The displayed form of a `bool`.
pub fn bool_string(b: bool) -> (r: String)
    ensures
        r@ == bool_text(b),
{
    if b {
        "true".to_owned()
    } else {
        "false".to_owned()
    }
}

/// The settings described by a settings file body (what `load` reads).
pub fn parse_settings(body: &str) -> (r: Settings)
    ensures
        settings_view(r) == parse_settings_spec(body@),
{
    let mut s = Settings::default();
    let v = chars_of(body);
    let ls = split_lines(v.as_slice());
    let ghost all = lines(v@);
    let show_key = chars_of("show_hidden");
    let sort_key = chars_of("sort");
    let t1 = chars_of("true");
    let t2 = chars_of("1");
    let t3 = chars_of("yes");
    let mut i: usize = 0;
    assert(all.take(0) =~= Seq::<Seq<char>>::empty());
    while i < ls.len()
        invariant
            i <= ls@.len(),
            ls@.len() == all.len(),
            forall|k: int| 0 <= k < ls@.len() ==> #[trigger] ls@[k]@ == all[k],
            settings_view(s) == apply_settings(all.take(i as int)),
            show_key@ == "show_hidden"@,
            sort_key@ == "sort"@,
            t1@ == "true"@,
            t2@ == "1"@,
            t3@ == "yes"@,
        decreases ls@.len() - i,
    {
        let ghost prev = settings_view(s);
        assert(all.take(i + 1).drop_last() =~= all.take(i as int));
        assert(all.take(i + 1).last() == ls@[i as int]@);
        let line = trim_chars(ls[i].as_slice());
        if line.len() > 0 && line[0] != '#' {
            if let Some((k, val)) = split_once_chars(line.as_slice(), '=') {
                let key = trim_chars(k.as_slice());
                if chars_eq(key.as_slice(), show_key.as_slice()) {
                    let t = trim_chars(val.as_slice());
                    s.show_hidden = chars_eq(t.as_slice(), t1.as_slice()) || chars_eq(
                        t.as_slice(),
                        t2.as_slice(),
                    ) || chars_eq(t.as_slice(), t3.as_slice());
                } else if chars_eq(key.as_slice(), sort_key.as_slice()) {
                    let t = trim_chars(val.as_slice());
                    s.sort = string_from_chars(t.as_slice());
                }
            }
        }
        assert(settings_view(s) == apply_setting(prev, ls@[i as int]@));
        i += 1;
    }
    assert(all.take(ls@.len() as int) =~= all);
    s
}

/// The settings file body for `s` (what `save` writes).
pub fn settings_body(s: &Settings) -> (r: String)
    ensures
        r@ == settings_body_spec(s.show_hidden, s.sort@),
{
    let mut r = String::new();
    push_str(&mut r, "show_hidden=");
    let b = bool_string(s.show_hidden);
    push_str(&mut r, b.as_str());
    push_str(&mut r, "\n");
    push_str(&mut r, "sort=");
    push_str(&mut r, s.sort.as_str());
    push_str(&mut r, "\n");
    r
}

/// Saving settings and loading them back gives the same settings, when the
/// sort value has no surrounding whitespace and no line break.
pub proof fn lemma_settings_roundtrip(show_hidden: bool, sort: Seq<char>)
    requires
        trim(sort) == sort,
        !sort.contains('\n'),
    ensures
        parse_settings_spec(settings_body_spec(show_hidden, sort)) == (show_hidden, sort),
{
    reveal_strlit("show_hidden=");
    reveal_strlit("true");
    reveal_strlit("false");
    reveal_strlit("\n");
    reveal_strlit("sort=");
    reveal_strlit("show_hidden");
    reveal_strlit("sort");
    reveal_strlit("1");
    reveal_strlit("yes");
    reveal_strlit("relevance");
    let a = "show_hidden="@ + bool_text(show_hidden);
    let b = "sort="@ + sort;
    let body = settings_body_spec(show_hidden, sort);
    assert(body =~= a + seq!['\n'] + (b + seq!['\n']));
    assert(!a.contains('\n')) by {
        if a.contains('\n') {
            let j = choose|j: int| 0 <= j < a.len() && a[j] == '\n';
            assert(a[j] != '\n');
        }
    }
    assert(!b.contains('\n')) by {
        if b.contains('\n') {
            let j = choose|j: int| 0 <= j < b.len() && b[j] == '\n';
            if j >= 5 {
                assert(sort[j - 5] == '\n');
            }
        }
    }
    lemma_first_index_concat(a, b + seq!['\n'], '\n');
    lemma_first_index_concat(b, Seq::<char>::empty(), '\n');
    assert(b + seq!['\n'] + Seq::<char>::empty() =~= b + seq!['\n']);
    assert(lines(Seq::<char>::empty()) =~= Seq::<Seq<char>>::empty());
    assert(lines(b + seq!['\n']) =~= seq![b]) by {
        if sort.len() > 0 {
            assert(b.last() == sort.last());
            lemma_trim_fixed(sort);
        }
    }
    assert(lines(body) =~= seq![a, b]);
    assert(seq![a, b].drop_last() =~= seq![a]);
    assert(seq![a].drop_last() =~= Seq::<Seq<char>>::empty());
    // the show_hidden line
    lemma_trim_id(a);
    let ka = "show_hidden"@;
    let va = bool_text(show_hidden);
    assert(!ka.contains('=')) by {
        if ka.contains('=') {
            let j = choose|j: int| 0 <= j < ka.len() && ka[j] == '=';
            assert(ka[j] != '=');
        }
    }
    assert(a =~= ka + seq!['='] + va);
    lemma_first_index_concat(ka, va, '=');
    lemma_trim_id(ka);
    lemma_trim_id(va);
    // the sort line
    assert(trim(b) == b) by {
        if sort.len() > 0 {
            assert(b.last() == sort.last());
            lemma_trim_fixed(sort);
        }
        lemma_trim_id(b);
    }
    let kb = "sort"@;
    assert(!kb.contains('=')) by {
        if kb.contains('=') {
            let j = choose|j: int| 0 <= j < kb.len() && kb[j] == '=';
            assert(kb[j] != '=');
        }
    }
    assert(b =~= kb + seq!['='] + sort);
    lemma_first_index_concat(kb, sort, '=');
    lemma_trim_id(kb);
    assert(kb != ka);
    assert(split_once(a, '=') == Some((ka, va)));
    assert(truthy(va) == show_hidden) by {
        if !show_hidden {
            assert(va.len() == 5);
        }
    }
    let s0 = (false, "relevance"@);
    let s1 = apply_setting(s0, a);
    assert(a[0] == 's');
    assert(s1 == (show_hidden, "relevance"@));
    assert(split_once(b, '=') == Some((kb, sort)));
    assert(b[0] == 's');
    let s2 = apply_setting(s1, b);
    assert(s2 == (show_hidden, sort));
    assert(apply_settings(Seq::<Seq<char>>::empty()) == s0);
    assert(seq![a].last() == a);
    assert(seq![a].drop_last() == Seq::<Seq<char>>::empty());
    assert(apply_settings(seq![a]) == s1);
    assert(seq![a, b].last() == b);
    assert(apply_settings(seq![a, b]) == s2);
}

} // verus!
