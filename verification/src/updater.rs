//! Release check: extracting fields from a GitHub Releases reply and
//! comparing dotted version numbers.

use vstd::prelude::*;
use crate::text::{
    chars_of, find_char, first_index, leading_digits, leading_digits_chars, lemma_first_index_props,
    parse_unsigned, parse_unsigned_chars, push_str, slice_range, split_chars, split_on, string_from_range,
};

verus! {

/// A newer release than the running one.
pub struct UpdateInfo {
    pub latest: String,
    pub current: String,
    pub url: String,
}

/// `pat` occurs in `s` at position `i`.
pub open spec fn occurs_at(s: Seq<char>, pat: Seq<char>, i: int) -> bool {
    0 <= i && i + pat.len() <= s.len() && s.subrange(i, i + pat.len()) == pat
}

/// `str::find` for a string pattern: the first position where `pat` occurs.
#[verifier::opaque]
pub open spec fn find_str(s: Seq<char>, pat: Seq<char>) -> Option<int> {
    if exists|i: int| occurs_at(s, pat, i) {
        Some(choose|i: int| occurs_at(s, pat, i) && forall|j: int| 0 <= j < i ==> !occurs_at(s, pat, j))
    } else {
        None
    }
}

proof fn lemma_find_str(s: Seq<char>, pat: Seq<char>, i: int)
    requires
        forall|j: int| 0 <= j < i ==> !occurs_at(s, pat, j),
        occurs_at(s, pat, i) || i + pat.len() > s.len(),
    ensures
        occurs_at(s, pat, i) ==> find_str(s, pat) == Some(i),
        !occurs_at(s, pat, i) ==> find_str(s, pat) is None,
{
    reveal(find_str);
    if occurs_at(s, pat, i) {
        let k = choose|k: int| occurs_at(s, pat, k) && forall|j: int| 0 <= j < k ==> !occurs_at(s, pat, j);
        assert(occurs_at(s, pat, k));
        if k < i {
        } else if k > i {
            assert(!occurs_at(s, pat, i));
        }
    } else {
        assert forall|k: int| !occurs_at(s, pat, k) by {
            if k >= i {
                assert(k + pat.len() > s.len());
            }
        }
    }
}

/// Executable [`find_str`].
pub fn find_chars(s: &[char], pat: &[char]) -> (r: Option<usize>)
    ensures
        r matches Some(i) ==> find_str(s@, pat@) == Some(i as int) && occurs_at(s@, pat@, i as int),
        r is None ==> find_str(s@, pat@) is None,
{
    let n = s.len();
    let m = pat.len();
    if m > n {
        proof {
            lemma_find_str(s@, pat@, 0);
        }
        return None;
    }
    let mut i: usize = 0;
    while i <= n - m
        invariant
            n == s@.len(),
            m == pat@.len(),
            m <= n,
            i <= n - m + 1,
            forall|j: int| 0 <= j < i ==> !occurs_at(s@, pat@, j),
        decreases n - i,
    {
        let mut k: usize = 0;
        while k < m && s[i + k] == pat[k]
            invariant
                n == s@.len(),
                m == pat@.len(),
                i + m <= n,
                k <= m,
                forall|t: int| 0 <= t < k ==> s@[i + t] == pat@[t],
            decreases m - k,
        {
            k += 1;
        }
        if k == m {
            assert(s@.subrange(i as int, i + m) =~= pat@);
            proof {
                lemma_find_str(s@, pat@, i as int);
            }
            return Some(i);
        }
        assert(!occurs_at(s@, pat@, i as int)) by {
            if s@.subrange(i as int, i + m) == pat@ {
                assert(s@.subrange(i as int, i + m)[k as int] == s@[i + k]);
            }
        }
        i += 1;
    }
    proof {
        lemma_find_str(s@, pat@, i as int);
    }
    None
}

/// After a key: the text between the first two `"` that follow the next `:`.
pub open spec fn value_after_key(a1: Seq<char>) -> Option<Seq<char>> {
    match first_index(a1, ':') {
        None => None,
        Some(c) => {
            let a2 = a1.skip(c + 1);
            match first_index(a2, '"') {
                None => None,
                Some(q) => {
                    let a3 = a2.skip(q + 1);
                    match first_index(a3, '"') {
                        None => None,
                        Some(e) => Some(a3.take(e)),
                    }
                },
            }
        },
    }
}

/// `"key"`, the key in double quotes.
pub open spec fn quoted(key: Seq<char>) -> Seq<char> {
    seq!['"'] + key + seq!['"']
}

/// What [`json_string_field`] extracts: the value after the first `"key"`
/// (see [`value_after_key`]).
pub open spec fn json_field_spec(body: Seq<char>, key: Seq<char>) -> Option<Seq<char>> {
    match find_str(body, quoted(key)) {
        None => None,
        Some(i) => value_after_key(body.skip(i + quoted(key).len())),
    }
}

fn quote_chars(key: &str) -> (r: Vec<char>)
    ensures
        r@ == quoted(key@),
{
    let mut needle: Vec<char> = Vec::new();
    needle.push('"');
    let k = chars_of(key);
    let mut j: usize = 0;
    while j < k.len()
        invariant
            j <= k@.len(),
            needle@ == seq!['"'] + k@.take(j as int),
        decreases k@.len() - j,
    {
        needle.push(k[j]);
        assert(seq!['"'] + k@.take(j as int) + seq![k@[j as int]] =~= seq!['"'] + k@.take(j + 1));
        j += 1;
    }
    needle.push('"');
    assert(needle@ =~= quoted(key@)) by {
        assert(k@.take(k@.len() as int) =~= k@);
    }
    needle
}

fn value_after_key_chars(a1: &[char]) -> (r: Option<String>)
    ensures
        r matches Some(v) ==> value_after_key(a1@) == Some(v@),
        r is None ==> value_after_key(a1@) is None,
{
    let c = match find_char(a1, ':') {
        Some(c) => c,
        None => return None,
    };
    proof {
        lemma_first_index_props(a1@, ':');
    }
    let n = a1.len();
    let a2 = slice_range(a1, c + 1, n);
    assert(a2@ =~= a1@.skip(c + 1));
    let q = match find_char(a2.as_slice(), '"') {
        Some(q) => q,
        None => return None,
    };
    proof {
        lemma_first_index_props(a2@, '"');
    }
    let a3 = slice_range(a2.as_slice(), q + 1, a2.len());
    assert(a3@ =~= a2@.skip(q + 1));
    let e = match find_char(a3.as_slice(), '"') {
        Some(e) => e,
        None => return None,
    };
    proof {
        lemma_first_index_props(a3@, '"');
    }
    let v = string_from_range(a3.as_slice(), 0, e);
    assert(v@ =~= a3@.take(e as int));
    Some(v)
}

/// Tiny string-field extractor: finds `"name":"…"` ignoring escapes inside.
pub fn json_string_field(body: &str, key: &str) -> (r: Option<String>)
    ensures
        r matches Some(v) ==> json_field_spec(body@, key@) == Some(v@),
        r is None ==> json_field_spec(body@, key@) is None,
{
    let b = chars_of(body);
    let needle = quote_chars(key);
    let i = match find_chars(b.as_slice(), needle.as_slice()) {
        Some(i) => i,
        None => return None,
    };
    let n = b.len();
    let m = needle.len();
    assert(i + m <= n);
    let a1 = slice_range(b.as_slice(), i + m, n);
    assert(a1@ =~= b@.skip(i + needle@.len()));
    value_after_key_chars(a1.as_slice())
}

/// One dotted component: its leading digits read as a `u32`, or 0 when
/// there are none or they do not fit.
pub open spec fn part_number(p: Seq<char>) -> nat {
    match parse_unsigned(leading_digits(p), u32::MAX as nat) {
        Some(n) => n,
        None => 0,
    }
}

/// The numeric components of a dotted version string.
pub open spec fn version_parts(s: Seq<char>) -> Seq<nat> {
    split_on(s, '.').map_values(|p: Seq<char>| part_number(p))
}

/// Component `i`, with missing components counting as 0.
pub open spec fn part_at(p: Seq<nat>, i: int) -> nat {
    if 0 <= i < p.len() {
        p[i]
    } else {
        0
    }
}

/// `a` is greater than `b` in the lexicographic order of zero-padded
/// component lists.
pub open spec fn newer_parts(a: Seq<nat>, b: Seq<nat>) -> bool {
    exists|k: int|
        0 <= k && #[trigger] part_at(a, k) > part_at(b, k) && forall|j: int|
            0 <= j < k ==> #[trigger] part_at(a, j) == part_at(b, j)
}

/// Version `a` is newer than version `b`.
pub open spec fn version_newer(a: Seq<char>, b: Seq<char>) -> bool {
    newer_parts(version_parts(a), version_parts(b))
}

fn version_numbers(s: &str) -> (r: Vec<u32>)
    ensures
        r@.len() == version_parts(s@).len(),
        forall|i: int| 0 <= i < r@.len() ==> #[trigger] r@[i] as nat == version_parts(s@)[i],
{
    let v = chars_of(s);
    let pieces = split_chars(v.as_slice(), '.');
    let mut out: Vec<u32> = Vec::new();
    let mut i: usize = 0;
    while i < pieces.len()
        invariant
            i <= pieces@.len(),
            pieces@.len() == split_on(v@, '.').len(),
            forall|k: int| 0 <= k < pieces@.len() ==> #[trigger] pieces@[k]@ == split_on(v@, '.')[k],
            out@.len() == i,
            forall|k: int| 0 <= k < i ==> #[trigger] out@[k] as nat == part_number(split_on(v@, '.')[k]),
        decreases pieces@.len() - i,
    {
        let d = leading_digits_chars(pieces[i].as_slice());
        let n: u32 = match parse_unsigned_chars(d.as_slice(), 0xffff_ffffu64) {
            Some(n) => n as u32,
            None => 0,
        };
        out.push(n);
        i += 1;
    }
    out
}

/// Zero-padded lexicographic comparison of two component lists.
fn newer_numbers(pa: &Vec<u32>, pb: &Vec<u32>) -> (r: bool)
    ensures
        r == newer_parts(pa@.map_values(|x: u32| x as nat), pb@.map_values(|x: u32| x as nat)),
{
    let ghost a = pa@.map_values(|x: u32| x as nat);
    let ghost b = pb@.map_values(|x: u32| x as nat);
    let n = if pa.len() > pb.len() {
        pa.len()
    } else {
        pb.len()
    };
    let mut i: usize = 0;
    while i < n
        invariant
            i <= n,
            n == pa@.len() || n == pb@.len(),
            n >= pa@.len() && n >= pb@.len(),
            a == pa@.map_values(|x: u32| x as nat),
            b == pb@.map_values(|x: u32| x as nat),
            forall|j: int| 0 <= j < i ==> #[trigger] part_at(a, j) == part_at(b, j),
        decreases n - i,
    {
        let av: u32 = if i < pa.len() {
            pa[i]
        } else {
            0
        };
        let bv: u32 = if i < pb.len() {
            pb[i]
        } else {
            0
        };
        assert(av as nat == part_at(a, i as int));
        assert(bv as nat == part_at(b, i as int));
        if av > bv {
            return true;
        }
        if av < bv {
            assert(!newer_parts(a, b)) by {
                if newer_parts(a, b) {
                    let k = choose|k: int|
                        0 <= k && #[trigger] part_at(a, k) > part_at(b, k) && forall|j: int|
                            0 <= j < k ==> #[trigger] part_at(a, j) == part_at(b, j);
                    if k < i {
                    } else if k > i {
                        assert(part_at(a, i as int) == part_at(b, i as int));
                    }
                }
            }
            return false;
        }
        i += 1;
    }
    assert(!newer_parts(a, b)) by {
        if newer_parts(a, b) {
            let k = choose|k: int|
                0 <= k && #[trigger] part_at(a, k) > part_at(b, k) && forall|j: int|
                    0 <= j < k ==> #[trigger] part_at(a, j) == part_at(b, j);
            if k < n {
            } else {
                assert(part_at(a, k) == 0);
            }
        }
    }
    false
}

/// Whether dotted version `a` is newer than `b` (components compared as
/// numbers, missing ones counting as 0).
pub fn is_newer(a: &str, b: &str) -> (r: bool)
    ensures
        r == version_newer(a@, b@),
{
    let pa = version_numbers(a);
    let pb = version_numbers(b);
    assert(pa@.map_values(|x: u32| x as nat) =~= version_parts(a@));
    assert(pb@.map_values(|x: u32| x as nat) =~= version_parts(b@));
    newer_numbers(&pa, &pb)
}

/// No version is newer than itself.
pub proof fn lemma_newer_irreflexive(a: Seq<char>)
    ensures
        !version_newer(a, a),
{
}

/// Of two versions, at most one is newer than the other.
pub proof fn lemma_newer_asymmetric(a: Seq<char>, b: Seq<char>)
    ensures
        !(version_newer(a, b) && version_newer(b, a)),
{
    let pa = version_parts(a);
    let pb = version_parts(b);
    if version_newer(a, b) && version_newer(b, a) {
        let k1 = choose|k: int|
            0 <= k && #[trigger] part_at(pa, k) > part_at(pb, k) && forall|j: int|
                0 <= j < k ==> #[trigger] part_at(pa, j) == part_at(pb, j);
        let k2 = choose|k: int|
            0 <= k && #[trigger] part_at(pb, k) > part_at(pa, k) && forall|j: int|
                0 <= j < k ==> #[trigger] part_at(pb, j) == part_at(pa, j);
        if k1 < k2 {
            assert(part_at(pb, k1) == part_at(pa, k1));
        } else if k2 < k1 {
            assert(part_at(pa, k2) == part_at(pb, k2));
        }
    }
}

/// Being newer is transitive.
pub proof fn lemma_newer_transitive(a: Seq<char>, b: Seq<char>, c: Seq<char>)
    requires
        version_newer(a, b),
        version_newer(b, c),
    ensures
        version_newer(a, c),
{
    let pa = version_parts(a);
    let pb = version_parts(b);
    let pc = version_parts(c);
    let k1 = choose|k: int|
        0 <= k && #[trigger] part_at(pa, k) > part_at(pb, k) && forall|j: int|
            0 <= j < k ==> #[trigger] part_at(pa, j) == part_at(pb, j);
    let k2 = choose|k: int|
        0 <= k && #[trigger] part_at(pb, k) > part_at(pc, k) && forall|j: int|
            0 <= j < k ==> #[trigger] part_at(pb, j) == part_at(pc, j);
    let k = if k1 < k2 {
        k1
    } else {
        k2
    };
    if k1 < k2 {
        assert(part_at(pb, k1) == part_at(pc, k1));
    } else if k2 < k1 {
        assert(part_at(pa, k2) == part_at(pb, k2));
    }
    assert(part_at(pa, k) > part_at(pc, k));
    assert forall|j: int| 0 <= j < k implies #[trigger] part_at(pa, j) == part_at(pc, j) by {
        assert(part_at(pa, j) == part_at(pb, j));
        assert(part_at(pb, j) == part_at(pc, j));
    }
}

/// `str::trim_start_matches('v')`: drops every leading `v`.
pub open spec fn strip_leading_v(s: Seq<char>) -> Seq<char>
    decreases s.len(),
{
    if s.len() > 0 && s[0] == 'v' {
        strip_leading_v(s.drop_first())
    } else {
        s
    }
}

fn strip_leading_v_string(s: &String) -> (r: String)
    ensures
        r@ == strip_leading_v(s@),
{
    let v = chars_of(s.as_str());
    let mut i: usize = 0;
    assert(v@.skip(0) =~= v@);
    while i < v.len() && v[i] == 'v'
        invariant
            i <= v@.len(),
            strip_leading_v(v@) == strip_leading_v(v@.skip(i as int)),
        decreases v@.len() - i,
    {
        assert(v@.skip(i as int).drop_first() =~= v@.skip(i + 1));
        i += 1;
    }
    assert(v@.skip(0) =~= v@);
    let r = string_from_range(v.as_slice(), i, v.len());
    assert(r@ =~= v@.skip(i as int));
    r
}

/// The update offered by a release reply `body` when the running version is
/// `current`: the `tag_name` field without leading `v`s, if that is newer,
/// together with the `html_url` field (empty when absent).
pub fn release_update(body: &str, current: &str) -> (r: Option<UpdateInfo>)
    ensures
        match json_field_spec(body@, "tag_name"@) {
            None => r is None,
            Some(tag) => if version_newer(strip_leading_v(tag), current@) {
                r matches Some(info) && info.latest@ == strip_leading_v(tag) && info.current@
                    == current@ && info.url@ == match json_field_spec(body@, "html_url"@) {
                    Some(u) => u,
                    None => Seq::<char>::empty(),
                }
            } else {
                r is None
            },
        },
{
    let tag = match json_string_field(body, "tag_name") {
        Some(t) => t,
        None => return None,
    };
    let html = match json_string_field(body, "html_url") {
        Some(h) => h,
        None => String::new(),
    };
    let latest = strip_leading_v_string(&tag);
    if is_newer(latest.as_str(), current) {
        let cur = current.to_owned();
        Some(UpdateInfo { latest, current: cur, url: html })
    } else {
        None
    }
}

/// The notice shown for an available update:
/// `Update available: <current> → <latest>`.
pub fn update_message(info: &UpdateInfo) -> (r: String)
    ensures
        r@ == "Update available: "@ + info.current@ + " \u{2192} "@ + info.latest@,
{
    let mut s = String::new();
    push_str(&mut s, "Update available: ");
    push_str(&mut s, info.current.as_str());
    push_str(&mut s, " \u{2192} ");
    push_str(&mut s, info.latest.as_str());
    s
}

} // verus!
