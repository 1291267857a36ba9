//! Path text: home-relative display, `~` expansion from the path bar,
//! joining, the branch named by a `.git/HEAD` file, breadcrumbs, thumbnail
//! cache names and the paths pasted from the clipboard.

use crate::edit::utf8;
use crate::index::{path_under, strip_path_prefix};
use crate::text::{
    chars_of, lines, nonblank, push_all, push_char, push_str, slice_range, split_lines, str_is, string_from_chars,
    trim, trim_bounds, trim_chars,
};
use std::path::Path;
use vstd::prelude::*;

verus! {

/// An optional text by its view.
pub open spec fn opt_str(o: Option<&str>) -> Option<Seq<char>> {
    match o {
        Some(s) => Some(s@),
        None => None,
    }
}

/// An optional string by its view.
pub open spec fn opt_string(o: Option<String>) -> Option<Seq<char>> {
    match o {
        Some(s) => Some(s@),
        None => None,
    }
}

/// `p` shown with a leading `home` replaced by `~` (when `home` is not
/// empty).
pub open spec fn short_path_spec(p: Seq<char>, home: Seq<char>) -> Seq<char> {
    if home.len() > 0 && home.is_prefix_of(p) {
        seq!['~'] + p.skip(home.len() as int)
    } else {
        p
    }
}

/// `v` starts with `prefix`.
fn starts_with_chars(v: &[char], prefix: &[char]) -> (r: bool)
    ensures
        r == prefix@.is_prefix_of(v@),
{
    if prefix.len() > v.len() {
        return false;
    }
    let mut i: usize = 0;
    while i < prefix.len()
        invariant
            prefix@.len() <= v@.len(),
            i <= prefix@.len(),
            forall|j: int| 0 <= j < i ==> prefix@[j] == v@[j],
        decreases prefix@.len() - i,
    {
        if prefix[i] != v[i] {
            return false;
        }
        i += 1;
    }
    assert(v@.take(prefix@.len() as int) =~= prefix@);
    true
}

/// A path for display, with the home directory abbreviated to `~`.
pub fn short_path(p: &str, home: &str) -> (r: String)
    ensures
        r@ == short_path_spec(p@, home@),
{
    let pv = chars_of(p);
    let hv = chars_of(home);
    if hv.len() > 0 && starts_with_chars(pv.as_slice(), hv.as_slice()) {
        let mut s = String::new();
        push_char(&mut s, '~');
        let rest = slice_range(pv.as_slice(), hv.len(), pv.len());
        push_all(&mut s, rest.as_slice());
        assert(rest@ =~= pv@.skip(hv@.len() as int));
        assert(s@ =~= seq!['~'] + p@.skip(home@.len() as int));
        s
    } else {
        p.to_string()
    }
}

/// `PathBuf::push` on Unix: an absolute `seg` replaces `base`; otherwise
/// `seg` follows `base`, with a `/` between them unless `base` is empty or
/// already ends in one.
pub open spec fn join_path(base: Seq<char>, seg: Seq<char>) -> Seq<char> {
    if seg.len() > 0 && seg[0] == '/' {
        seg
    } else if base.len() == 0 || base.last() == '/' {
        base + seg
    } else {
        base + seq!['/'] + seg
    }
}

/// `base` joined with `seg` (see [`join_path`]).
pub fn join(base: &str, seg: &str) -> (r: String)
    ensures
        r@ == join_path(base@, seg@),
{
    let b = chars_of(base);
    let s = chars_of(seg);
    if s.len() > 0 && s[0] == '/' {
        return seg.to_string();
    }
    let mut out = string_from_chars(b.as_slice());
    if b.len() > 0 && b[b.len() - 1] != '/' {
        push_char(&mut out, '/');
    }
    push_all(&mut out, s.as_slice());
    out
}

/// `s` without its leading `/` characters (`trim_start_matches('/')`).
pub open spec fn trim_leading_slashes(s: Seq<char>) -> Seq<char>
    decreases s.len(),
{
    if s.len() > 0 && s[0] == '/' {
        trim_leading_slashes(s.drop_first())
    } else {
        s
    }
}

/// What the path bar's text names: `None` for blank text; with a leading
/// `~`, the rest under `home` (`None` without a home); otherwise the
/// trimmed text itself.
pub open spec fn expand_tilde_spec(s: Seq<char>, home: Option<Seq<char>>) -> Option<Seq<char>> {
    let t = trim(s);
    if t.len() == 0 {
        None
    } else if t[0] == '~' {
        match home {
            None => None,
            Some(h) => {
                let rest = trim_leading_slashes(t.drop_first());
                if rest.len() == 0 {
                    Some(h)
                } else {
                    Some(join_path(h, rest))
                }
            },
        }
    } else {
        Some(t)
    }
}

/// The path that the path bar's text names (see [`expand_tilde_spec`]).
pub fn expand_tilde(s: &str, home: Option<&str>) -> (r: Option<String>)
    ensures
        r matches Some(p) ==> expand_tilde_spec(s@, opt_str(home)) == Some(p@),
        r is None ==> expand_tilde_spec(s@, opt_str(home)) is None,
{
    let v = chars_of(s);
    let t = trim_chars(v.as_slice());
    if t.len() == 0 {
        return None;
    }
    if t[0] != '~' {
        return Some(string_from_chars(t.as_slice()));
    }
    match home {
        None => None,
        Some(h) => {
            let mut i: usize = 1;
            proof {
                assert(t@.skip(1) =~= t@.drop_first());
            }
            while i < t.len() && t[i] == '/'
                invariant
                    1 <= i <= t@.len(),
                    trim_leading_slashes(t@.drop_first()) == trim_leading_slashes(
                        t@.skip(i as int),
                    ),
                decreases t@.len() - i,
            {
                assert(t@.skip(i as int).drop_first() =~= t@.skip(i + 1));
                i += 1;
            }
            let rest = slice_range(t.as_slice(), i, t.len());
            assert(rest@ =~= t@.skip(i as int));
            if rest.len() == 0 {
                Some(h.to_string())
            } else {
                let rs = string_from_chars(rest.as_slice());
                Some(join(h, rs.as_str()))
            }
        },
    }
}

/// The prefix of a `.git/HEAD` file that names a branch.
pub open spec fn head_ref_prefix() -> Seq<char> {
    "ref: refs/heads/"@
}

/// The branch a `.git/HEAD` file names: after `ref: refs/heads/` in the
/// trimmed text, or, for a detached head, the first seven characters of
/// the commit.
pub open spec fn branch_from_head_spec(body: Seq<char>) -> Seq<char> {
    let t = trim(body);
    if head_ref_prefix().is_prefix_of(t) {
        t.skip(head_ref_prefix().len() as int)
    } else if t.len() > 7 {
        t.take(7)
    } else {
        t
    }
}

/// The branch named by the text of a `.git/HEAD` file (see
/// [`branch_from_head_spec`]).
pub fn branch_from_head(body: &str) -> (r: String)
    ensures
        r@ == branch_from_head_spec(body@),
{
    let v = chars_of(body);
    let t = trim_chars(v.as_slice());
    let prefix = chars_of("ref: refs/heads/");
    if starts_with_chars(t.as_slice(), prefix.as_slice()) {
        let rest = slice_range(t.as_slice(), prefix.len(), t.len());
        assert(rest@ =~= t@.skip(prefix@.len() as int));
        string_from_chars(rest.as_slice())
    } else if t.len() > 7 {
        let head = slice_range(t.as_slice(), 0, 7);
        assert(head@ =~= t@.take(7));
        string_from_chars(head.as_slice())
    } else {
        string_from_chars(t.as_slice())
    }
}

/// The texts of the components of a path (`Path::components`, each as
/// `as_os_str`).
pub uninterp spec fn path_components(p: Seq<char>) -> Seq<Seq<char>>;

/// `Path::components`, each component as text.
#[verifier::external_body]
fn components_of(p: &str) -> (r: Vec<String>)
    ensures
        r@.map_values(|s: String| s@) == path_components(p@),
{
    Path::new(p).components().map(|c| c.as_os_str().to_string_lossy().into_owned()).collect()
}

/// The path without its last component (`Path::parent`), as text; `None`
/// for a path that ends in a root or prefix, or is empty.
pub uninterp spec fn path_parent(p: Seq<char>) -> Option<Seq<char>>;

/// `Path::parent`, as text.
#[verifier::external_body]
pub(crate) fn parent_of(p: &str) -> (r: Option<String>)
    ensures
        opt_string(r) == path_parent(p@),
{
    Path::new(p).parent().map(|q| q.to_string_lossy().into_owned())
}

/// Two paths name the same place: `Path` compares paths by their
/// components, so `a/b`, `a//b` and `a/./b` are one path.
pub open spec fn same_place(a: Seq<char>, b: Seq<char>) -> bool {
    path_components(a) == path_components(b)
}

/// Whether two paths are equal as paths (see [`same_place`]).
pub fn paths_equal(a: &str, b: &str) -> (r: bool)
    ensures
        r == same_place(a@, b@),
{
    let ca = components_of(a);
    let cb = components_of(b);
    let ghost va = ca@.map_values(|s: String| s@);
    let ghost vb = cb@.map_values(|s: String| s@);
    if ca.len() != cb.len() {
        assert(va.len() != vb.len());
        return false;
    }
    let mut i: usize = 0;
    while i < ca.len()
        invariant
            ca@.len() == cb@.len(),
            i <= ca@.len(),
            va == ca@.map_values(|s: String| s@),
            vb == cb@.map_values(|s: String| s@),
            va == path_components(a@),
            vb == path_components(b@),
            forall|j: int| 0 <= j < i ==> #[trigger] va[j] == vb[j],
        decreases ca@.len() - i,
    {
        if !str_is(ca[i].as_str(), cb[i].as_str()) {
            assert(va[i as int] == ca@[i as int]@ && vb[i as int] == cb@[i as int]@);
            assert(va[i as int] != vb[i as int]);
            assert(va != vb);
            return false;
        }
        i += 1;
    }
    assert(va =~= vb);
    true
}

/// Breadcrumb pieces after the start: for each segment a separator and the
/// segment, which leads to `acc` joined with the segments so far.
pub open spec fn crumbs_after(acc: Seq<char>, segs: Seq<Seq<char>>) -> Seq<(Seq<char>, Option<Seq<char>>)>
    decreases segs.len(),
{
    if segs.len() == 0 {
        seq![]
    } else {
        let next = join_path(acc, segs[0]);
        seq![(" › "@, None), (segs[0], Some(next))] + crumbs_after(next, segs.drop_first())
    }
}

/// All but the first component (`skip(1)`).
pub open spec fn skip_first(s: Seq<Seq<char>>) -> Seq<Seq<char>> {
    if s.len() > 0 {
        s.drop_first()
    } else {
        s
    }
}

/// The breadcrumb of a directory: `~` leading home when it lies under
/// `home`, else `/`; then each further component, clickable, with
/// separators between.
pub open spec fn breadcrumb_spec(abs: Seq<char>, home: Option<Seq<char>>) -> Seq<(Seq<char>, Option<Seq<char>>)> {
    let under = match home {
        Some(h) => path_under(abs, h),
        None => None,
    };
    match under {
        Some(rest) => seq![("~"@, Some(home.unwrap()))] + crumbs_after(home.unwrap(), path_components(rest)),
        None => seq![("/"@, Some("/"@))] + crumbs_after("/"@, skip_first(path_components(abs))),
    }
}

/// The breadcrumb pieces of `abs` (see [`breadcrumb_spec`]): labels, with
/// the directory each clickable one leads to.
pub fn clickable_breadcrumb(abs: &str, home: Option<&str>) -> (r: Vec<(String, Option<String>)>)
    ensures
        r@.map_values(|p: (String, Option<String>)| (p.0@, opt_string(p.1)))
            == breadcrumb_spec(abs@, opt_str(home)),
{
    let ghost hv = opt_str(home);
    let mut out: Vec<(String, Option<String>)> = Vec::new();
    let mut acc: String;
    let segs: Vec<String>;
    let mut k: usize;
    let rest = match home {
        Some(h) => strip_path_prefix(abs, h),
        None => None,
    };
    match rest {
        Some(r) => {
            let h = home.unwrap();
            out.push(("~".to_string(), Some(h.to_string())));
            acc = h.to_string();
            segs = components_of(r.as_str());
            k = 0;
        },
        None => {
            out.push(("/".to_string(), Some("/".to_string())));
            acc = "/".to_string();
            segs = components_of(abs);
            k = if segs.len() > 0 {
                1
            } else {
                0
            };
        },
    }
    let ghost sv = segs@.map_values(|s: String| s@);
    let ghost all = breadcrumb_spec(abs@, hv);
    proof {
        let first = out@.map_values(|p: (String, Option<String>)| (p.0@, opt_string(p.1)));
        if k == 1 {
            assert(sv.drop_first() =~= sv.skip(1));
        } else {
            assert(sv =~= sv.skip(0));
        }
        assert(all =~= first + crumbs_after(acc@, sv.skip(k as int)));
    }
    while k < segs.len()
        invariant
            k <= segs@.len(),
            sv == segs@.map_values(|s: String| s@),
            all == out@.map_values(|p: (String, Option<String>)| (p.0@, opt_string(p.1)))
                + crumbs_after(acc@, sv.skip(k as int)),
        decreases segs@.len() - k,
    {
        let ghost before = out@.map_values(
            |p: (String, Option<String>)| (p.0@, opt_string(p.1)),
        );
        let next = join(acc.as_str(), segs[k].as_str());
        let seg = string_from_chars(chars_of(segs[k].as_str()).as_slice());
        out.push((" › ".to_string(), None));
        out.push((seg, Some(string_from_chars(chars_of(next.as_str()).as_slice()))));
        proof {
            let tail = sv.skip(k as int);
            assert(tail[0] == sv[k as int]);
            assert(tail.drop_first() =~= sv.skip(k + 1));
            assert(out@.map_values(|p: (String, Option<String>)| (p.0@, opt_string(p.1)))
                =~= before + seq![(" › "@, None), (sv[k as int], Some(next@))]);
        }
        acc = next;
        k += 1;
    }
    proof {
        assert(sv.skip(k as int) =~= seq![]);
    }
    out
}

/// The thumbnail key's starting value and its multiplier (the 64-bit
/// FNV prime).
pub const FNV_OFFSET: u64 = 1469598103934665603;

pub const FNV_PRIME: u64 = 1099511628211;

/// The thumbnail key of bytes: FNV-1a over 64 bits from [`FNV_OFFSET`],
/// multiplying with wrap-around.
pub open spec fn fnv1a(bs: Seq<u8>) -> u64
    decreases bs.len(),
{
    if bs.len() == 0 {
        FNV_OFFSET
    } else {
        (fnv1a(bs.drop_last()) ^ (bs.last() as u64)).wrapping_mul(FNV_PRIME)
    }
}

/// The thumbnail key of the bytes of `s` (see [`fnv1a`]).
pub fn thumb_key(s: &str) -> (r: u64)
    ensures
        r == fnv1a(utf8(s@)),
{
    let b = s.as_bytes();
    let mut h: u64 = FNV_OFFSET;
    let mut i: usize = 0;
    assert(b@.take(0) =~= Seq::<u8>::empty());
    while i < b.len()
        invariant
            i <= b@.len(),
            h == fnv1a(b@.take(i as int)),
        decreases b@.len() - i,
    {
        assert(b@.take(i + 1).drop_last() =~= b@.take(i as int));
        h = (h ^ (b[i] as u64)).wrapping_mul(FNV_PRIME);
        i += 1;
    }
    assert(b@.take(b@.len() as int) =~= b@);
    h
}

/// Lower-case hexadecimal digit.
pub open spec fn hex_digit(d: nat) -> char {
    if d < 10 {
        ((d + 48) as u32) as char
    } else {
        ((d + 87) as u32) as char
    }
}

/// The last `n` hexadecimal digits of `k`, zero-padded.
pub open spec fn hex_fixed(k: nat, n: nat) -> Seq<char>
    decreases n,
{
    if n == 0 {
        seq![]
    } else {
        hex_fixed(k / 16, (n - 1) as nat).push(hex_digit(k % 16))
    }
}

fn hex_digit_char(d: u64) -> (c: char)
    requires
        d < 16,
    ensures
        c == hex_digit(d as nat),
{
    match d {
        0 => '0',
        1 => '1',
        2 => '2',
        3 => '3',
        4 => '4',
        5 => '5',
        6 => '6',
        7 => '7',
        8 => '8',
        9 => '9',
        10 => 'a',
        11 => 'b',
        12 => 'c',
        13 => 'd',
        14 => 'e',
        _ => 'f',
    }
}

fn push_hex_fixed(s: &mut String, k: u64, n: u32)
    ensures
        final(s)@ == old(s)@ + hex_fixed(k as nat, n as nat),
    decreases n,
{
    if n > 0 {
        push_hex_fixed(s, k / 16, n - 1);
        let c = hex_digit_char(k % 16);
        push_char(s, c);
        assert(s@ =~= old(s)@ + hex_fixed(k as nat, n as nat));
    } else {
        assert(s@ =~= old(s)@ + hex_fixed(k as nat, n as nat));
    }
}

/// The name of a path's cached thumbnail: its key in sixteen hexadecimal
/// digits, then `.png`.
pub open spec fn thumb_name_spec(path: Seq<u8>) -> Seq<char> {
    hex_fixed(fnv1a(path) as nat, 16) + ".png"@
}

/// The thumbnail cache's file name for a path (see [`thumb_name_spec`]).
pub fn thumb_file_name(path: &str) -> (r: String)
    ensures
        r@ == thumb_name_spec(utf8(path@)),
{
    let key = thumb_key(path);
    let mut s = String::new();
    push_hex_fixed(&mut s, key, 16);
    push_str(&mut s, ".png");
    s
}

/// The paths of a bookmarks or recents file: its non-blank lines, as they
/// are.
pub fn saved_paths(body: &str) -> (r: Vec<String>)
    ensures
        r@.map_values(|s: String| s@) == nonblank(lines(body@)),
{
    let v = chars_of(body);
    let ls = split_lines(v.as_slice());
    let ghost lv = lines(body@);
    let mut out: Vec<String> = Vec::new();
    let mut i: usize = 0;
    assert(lv.take(0) =~= Seq::<Seq<char>>::empty());
    while i < ls.len()
        invariant
            i <= ls@.len(),
            ls@.len() == lv.len(),
            lv == lines(v@),
            v@ == body@,
            forall|k: int| 0 <= k < ls@.len() ==> #[trigger] ls@[k]@ == lv[k],
            out@.map_values(|s: String| s@) == nonblank(lv.take(i as int)),
        decreases ls@.len() - i,
    {
        assert(lv.take(i + 1).drop_last() =~= lv.take(i as int));
        assert(lv.take(i + 1).last() == ls@[i as int]@);
        let t = trim_chars(ls[i].as_slice());
        if t.len() > 0 {
            let ghost before = out@.map_values(|s: String| s@);
            out.push(string_from_chars(ls[i].as_slice()));
            assert(out@.map_values(|s: String| s@) =~= before.push(ls@[i as int]@));
        }
        i += 1;
    }
    assert(lv.take(lv.len() as int) =~= lv);
    out
}

/// Each line trimmed, the empty ones dropped.
pub open spec fn trimmed_lines(ls: Seq<Seq<char>>) -> Seq<Seq<char>>
    decreases ls.len(),
{
    if ls.len() == 0 {
        seq![]
    } else if trim(ls.last()).len() == 0 {
        trimmed_lines(ls.drop_last())
    } else {
        trimmed_lines(ls.drop_last()).push(trim(ls.last()))
    }
}

/// The paths pasted from the clipboard: its lines, trimmed, blank ones
/// dropped.
pub fn clipboard_paths(payload: &str) -> (r: Vec<String>)
    ensures
        r@.map_values(|s: String| s@) == trimmed_lines(lines(payload@)),
{
    let v = chars_of(payload);
    let ls = split_lines(v.as_slice());
    let ghost lv = lines(payload@);
    let mut out: Vec<String> = Vec::new();
    let mut i: usize = 0;
    assert(lv.take(0) =~= Seq::<Seq<char>>::empty());
    while i < ls.len()
        invariant
            i <= ls@.len(),
            ls@.len() == lv.len(),
            lv == lines(v@),
            v@ == payload@,
            forall|k: int| 0 <= k < ls@.len() ==> #[trigger] ls@[k]@ == lv[k],
            out@.map_values(|s: String| s@) == trimmed_lines(lv.take(i as int)),
        decreases ls@.len() - i,
    {
        assert(lv.take(i + 1).drop_last() =~= lv.take(i as int));
        assert(lv.take(i + 1).last() == ls@[i as int]@);
        let t = trim_chars(ls[i].as_slice());
        if t.len() > 0 {
            let ghost before = out@.map_values(|s: String| s@);
            out.push(string_from_chars(t.as_slice()));
            assert(out@.map_values(|s: String| s@) =~= before.push(t@));
        }
        i += 1;
    }
    assert(lv.take(lv.len() as int) =~= lv);
    out
}

} // verus!
