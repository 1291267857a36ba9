//! Character-level string helpers shared by the parsers and formatters.
//!
//! Text is modelled by its `Seq<char>` view; executable helpers work on
//! `Vec<char>` and convert at the edges.

use vstd::prelude::*;

verus! {

/// Appends one character to a string (`String::push`).
#[verifier::external_body]
pub(crate) fn push_char(s: &mut String, c: char)
    ensures
        final(s)@ == old(s)@.push(c),
{
    s.push(c);
}

/// The characters of a string slice, in order.
pub fn chars_of(s: &str) -> (r: Vec<char>)
    ensures
        r@ == s@,
{
    let mut r: Vec<char> = Vec::new();
    for c in it: s.chars()
        invariant
            r@ == it.seq().take(it.index() as int),
    {
        r.push(c);
    }
    r
}

/// A string holding exactly the given characters.
pub fn string_from_chars(v: &[char]) -> (r: String)
    ensures
        r@ == v@,
{
    let mut r = String::new();
    let mut i: usize = 0;
    while i < v.len()
        invariant
            i <= v@.len(),
            r@ == v@.take(i as int),
        decreases v@.len() - i,
    {
        push_char(&mut r, v[i]);
        assert(v@.take(i as int).push(v@[i as int]) =~= v@.take(i + 1));
        i += 1;
    }
    assert(v@.take(v@.len() as int) =~= v@);
    r
}

/// The characters `v[from..to]` as a string.
pub fn string_from_range(v: &[char], from: usize, to: usize) -> (r: String)
    requires
        from <= to <= v@.len(),
    ensures
        r@ == v@.subrange(from as int, to as int),
{
    let mut r = String::new();
    let mut i: usize = from;
    while i < to
        invariant
            from <= i <= to <= v@.len(),
            r@ == v@.subrange(from as int, i as int),
        decreases to - i,
    {
        push_char(&mut r, v[i]);
        assert(v@.subrange(from as int, i as int).push(v@[i as int]) =~= v@.subrange(
            from as int,
            i + 1,
        ));
        i += 1;
    }
    r
}

/// Appends every character of `v` to `s`.
pub fn push_all(s: &mut String, v: &[char])
    ensures
        final(s)@ == old(s)@ + v@,
{
    let mut i: usize = 0;
    while i < v.len()
        invariant
            i <= v@.len(),
            s@ == old(s)@ + v@.take(i as int),
        decreases v@.len() - i,
    {
        push_char(s, v[i]);
        assert(old(s)@ + v@.take(i as int) + seq![v@[i as int]] =~= old(s)@ + v@.take(i + 1));
        i += 1;
    }
    assert(v@.take(v@.len() as int) =~= v@);
}

/// Appends every character of the string slice `t` to `s`.
pub fn push_str(s: &mut String, t: &str)
    ensures
        final(s)@ == old(s)@ + t@,
{
    let v = chars_of(t);
    push_all(s, v.as_slice());
}

/// Character sequences are equal.
pub fn chars_eq(a: &[char], b: &[char]) -> (r: bool)
    ensures
        r == (a@ == b@),
{
    if a.len() != b.len() {
        return false;
    }
    let mut i: usize = 0;
    while i < a.len()
        invariant
            a@.len() == b@.len(),
            i <= a@.len(),
            forall|j: int| 0 <= j < i ==> a@[j] == b@[j],
        decreases a@.len() - i,
    {
        if a[i] != b[i] {
            return false;
        }
        i += 1;
    }
    assert(a@ =~= b@);
    true
}

/// The string view equals the given characters.
pub fn str_is(s: &str, lit: &str) -> (r: bool)
    ensures
        r == (s@ == lit@),
{
    let a = chars_of(s);
    let b = chars_of(lit);
    chars_eq(a.as_slice(), b.as_slice())
}

/// `char::is_whitespace`: the Unicode `White_Space` property.
pub open spec fn is_space(c: char) -> bool {
    ||| '\u{9}' <= c <= '\u{d}'
    ||| c == ' '
    ||| c == '\u{85}'
    ||| c == '\u{a0}'
    ||| c == '\u{1680}'
    ||| '\u{2000}' <= c <= '\u{200a}'
    ||| c == '\u{2028}'
    ||| c == '\u{2029}'
    ||| c == '\u{202f}'
    ||| c == '\u{205f}'
    ||| c == '\u{3000}'
}

/// Executable form of [`is_space`].
pub fn char_is_space(c: char) -> (r: bool)
    ensures
        r == is_space(c),
{
    ('\u{9}' <= c && c <= '\u{d}') || c == ' ' || c == '\u{85}' || c == '\u{a0}' || c
        == '\u{1680}' || ('\u{2000}' <= c && c <= '\u{200a}') || c == '\u{2028}' || c
        == '\u{2029}' || c == '\u{202f}' || c == '\u{205f}' || c == '\u{3000}'
}

/// `char::is_ascii_digit`.
pub open spec fn is_digit(c: char) -> bool {
    '0' <= c <= '9'
}

/// `str::trim_start`: drops leading whitespace.
pub open spec fn trim_start(s: Seq<char>) -> Seq<char>
    decreases s.len(),
{
    if s.len() > 0 && is_space(s[0]) {
        trim_start(s.drop_first())
    } else {
        s
    }
}

/// `str::trim_end`: drops trailing whitespace.
pub open spec fn trim_end(s: Seq<char>) -> Seq<char>
    decreases s.len(),
{
    if s.len() > 0 && is_space(s.last()) {
        trim_end(s.drop_last())
    } else {
        s
    }
}

/// `str::trim`: drops leading and trailing whitespace.
pub open spec fn trim(s: Seq<char>) -> Seq<char> {
    trim_end(trim_start(s))
}

proof fn lemma_trim_start_skip(s: Seq<char>, i: int)
    requires
        0 <= i <= s.len(),
        forall|j: int| 0 <= j < i ==> is_space(#[trigger] s[j]),
        i == s.len() || !is_space(s[i]),
    ensures
        trim_start(s) == s.subrange(i, s.len() as int),
    decreases i,
{
    if i == 0 {
        assert(s.subrange(0, s.len() as int) =~= s);
    } else {
        lemma_trim_start_skip(s.drop_first(), i - 1);
        assert(s.drop_first().subrange(i - 1, s.len() - 1) =~= s.subrange(i, s.len() as int));
    }
}

proof fn lemma_trim_end_take(s: Seq<char>, k: int)
    requires
        0 <= k <= s.len(),
        forall|j: int| k <= j < s.len() ==> is_space(#[trigger] s[j]),
        k == 0 || !is_space(s[k - 1]),
    ensures
        trim_end(s) == s.subrange(0, k),
    decreases s.len() - k,
{
    if k == s.len() {
        assert(s.subrange(0, k) =~= s);
    } else {
        lemma_trim_end_take(s.drop_last(), k);
        assert(s.drop_last().subrange(0, k) =~= s.subrange(0, k));
    }
}

/// Bounds `(lo, hi)` such that `trim(v) == v[lo..hi]`.
pub fn trim_bounds(v: &[char]) -> (r: (usize, usize))
    ensures
        r.0 <= r.1 <= v@.len(),
        trim(v@) == v@.subrange(r.0 as int, r.1 as int),
        trim_start(v@) == v@.subrange(r.0 as int, v@.len() as int),
{
    let mut lo: usize = 0;
    while lo < v.len() && char_is_space(v[lo])
        invariant
            lo <= v@.len(),
            forall|j: int| 0 <= j < lo ==> is_space(#[trigger] v@[j]),
        decreases v@.len() - lo,
    {
        lo += 1;
    }
    proof {
        lemma_trim_start_skip(v@, lo as int);
    }
    let ghost t = v@.subrange(lo as int, v@.len() as int);
    let mut hi: usize = v.len();
    while hi > lo && char_is_space(v[hi - 1])
        invariant
            lo <= hi <= v@.len(),
            t == v@.subrange(lo as int, v@.len() as int),
            forall|j: int| hi <= j < v@.len() ==> is_space(#[trigger] v@[j]),
        decreases hi,
    {
        hi -= 1;
    }
    proof {
        assert forall|j: int| hi - lo <= j < t.len() implies is_space(#[trigger] t[j]) by {
            assert(t[j] == v@[j + lo]);
        }
        lemma_trim_end_take(t, hi - lo);
        assert(t.subrange(0, hi - lo) =~= v@.subrange(lo as int, hi as int));
    }
    (lo, hi)
}

/// `s.trim()` as a character vector.
pub fn trim_chars(v: &[char]) -> (r: Vec<char>)
    ensures
        r@ == trim(v@),
{
    let (lo, hi) = trim_bounds(v);
    slice_range(v, lo, hi)
}

/// `v[from..to]` as a new vector.
pub fn slice_range(v: &[char], from: usize, to: usize) -> (r: Vec<char>)
    requires
        from <= to <= v@.len(),
    ensures
        r@ == v@.subrange(from as int, to as int),
{
    let mut r: Vec<char> = Vec::new();
    let mut i: usize = from;
    while i < to
        invariant
            from <= i <= to <= v@.len(),
            r@ == v@.subrange(from as int, i as int),
        decreases to - i,
    {
        r.push(v[i]);
        assert(v@.subrange(from as int, i as int).push(v@[i as int]) =~= v@.subrange(
            from as int,
            i + 1,
        ));
        i += 1;
    }
    r
}

/// Index of the first occurrence of `c` in `s`.
pub open spec fn first_index(s: Seq<char>, c: char) -> Option<int>
    decreases s.len(),
{
    if s.len() == 0 {
        None
    } else if s[0] == c {
        Some(0)
    } else {
        match first_index(s.drop_first(), c) {
            Some(i) => Some(i + 1),
            None => None,
        }
    }
}

pub proof fn lemma_first_index(s: Seq<char>, c: char, i: int)
    requires
        0 <= i <= s.len(),
        forall|j: int| 0 <= j < i ==> #[trigger] s[j] != c,
    ensures
        i == s.len() ==> first_index(s, c) is None,
        i < s.len() && s[i] == c ==> first_index(s, c) == Some(i),
    decreases i,
{
    if i > 0 {
        lemma_first_index(s.drop_first(), c, i - 1);
    }
}

/// Facts on `first_index`: it names the first position holding `c`.
pub proof fn lemma_first_index_props(s: Seq<char>, c: char)
    ensures
        first_index(s, c) is None <==> !s.contains(c),
        first_index(s, c) matches Some(i) ==> 0 <= i < s.len() && s[i] == c && forall|j: int|
            0 <= j < i ==> #[trigger] s[j] != c,
    decreases s.len(),
{
    if s.len() > 0 {
        lemma_first_index_props(s.drop_first(), c);
        if s[0] != c {
            if s.contains(c) {
                let k = choose|k: int| 0 <= k < s.len() && s[k] == c;
                assert(s.drop_first()[k - 1] == c);
            }
            match first_index(s.drop_first(), c) {
                Some(i) => {
                    assert forall|j: int| 0 <= j < i + 1 implies #[trigger] s[j] != c by {
                        if j > 0 {
                            assert(s[j] == s.drop_first()[j - 1]);
                        }
                    }
                },
                None => {},
            }
        }
    }
}

/// Position of the first `c` in `v`, if any.
pub fn find_char(v: &[char], c: char) -> (r: Option<usize>)
    ensures
        r matches Some(i) ==> first_index(v@, c) == Some(i as int),
        r is None ==> first_index(v@, c) is None,
{
    let mut i: usize = 0;
    while i < v.len()
        invariant
            i <= v@.len(),
            forall|j: int| 0 <= j < i ==> #[trigger] v@[j] != c,
        decreases v@.len() - i,
    {
        if v[i] == c {
            proof {
                lemma_first_index(v@, c, i as int);
            }
            return Some(i);
        }
        i += 1;
    }
    proof {
        lemma_first_index(v@, c, i as int);
    }
    None
}

/// `str::split_once(c)`: the parts before and after the first `c`.
pub open spec fn split_once(s: Seq<char>, c: char) -> Option<(Seq<char>, Seq<char>)> {
    match first_index(s, c) {
        Some(i) => Some((s.take(i), s.skip(i + 1))),
        None => None,
    }
}

/// Executable [`split_once`].
pub fn split_once_chars(v: &[char], c: char) -> (r: Option<(Vec<char>, Vec<char>)>)
    ensures
        r matches Some(p) ==> split_once(v@, c) == Some((p.0@, p.1@)),
        r is None ==> split_once(v@, c) is None,
{
    match find_char(v, c) {
        Some(i) => {
            proof {
                lemma_first_index_props(v@, c);
                assert(i < v@.len());
            }
            let n = v.len();
            let a = slice_range(v, 0, i);
            let b = slice_range(v, i + 1, n);
            assert(a@ =~= v@.take(i as int));
            assert(b@ =~= v@.skip(i + 1));
            Some((a, b))
        },
        None => None,
    }
}

/// `str::lines`: split at `\n`, dropping a `\r` right before it, with no
/// empty line after a final `\n`.
pub open spec fn lines(s: Seq<char>) -> Seq<Seq<char>>
    decreases s.len(),
{
    if s.len() == 0 {
        seq![]
    } else {
        match first_index(s, '\n') {
            None => seq![s],
            Some(i) => {
                proof {
                    lemma_first_index_props(s, '\n');
                }
                seq![strip_cr(s.take(i))] + lines(s.skip(i + 1))
            },
        }
    }
}

/// Drops one trailing `\r`.
pub open spec fn strip_cr(s: Seq<char>) -> Seq<char> {
    if s.len() > 0 && s.last() == '\r' {
        s.drop_last()
    } else {
        s
    }
}

/// The lines of a text (see [`lines`]).
pub fn split_lines(v: &[char]) -> (r: Vec<Vec<char>>)
    ensures
        r@.len() == lines(v@).len(),
        forall|i: int| 0 <= i < r@.len() ==> #[trigger] r@[i]@ == lines(v@)[i],
{
    let mut out: Vec<Vec<char>> = Vec::new();
    let ghost mut acc: Seq<Seq<char>> = seq![];
    let mut start: usize = 0;
    let mut i: usize = 0;
    assert(v@.skip(0) =~= v@);
    assert(acc + lines(v@) =~= lines(v@));
    while i < v.len()
        invariant
            start <= i <= v@.len(),
            forall|j: int| start <= j < i ==> #[trigger] v@[j] != '\n',
            out@.len() == acc.len(),
            forall|k: int| 0 <= k < acc.len() ==> #[trigger] out@[k]@ == acc[k],
            lines(v@) == acc + lines(v@.skip(start as int)),
        decreases v@.len() - i,
    {
        if v[i] == '\n' {
            let ghost rest = v@.skip(start as int);
            proof {
                assert forall|j: int| 0 <= j < i - start implies #[trigger] rest[j] != '\n' by {
                    assert(rest[j] == v@[j + start]);
                }
                lemma_first_index(rest, '\n', i - start);
                assert(rest.skip(i - start + 1) =~= v@.skip(i + 1));
                assert(rest.take(i - start) =~= v@.subrange(start as int, i as int));
            }
            let mut end = i;
            if end > start && v[end - 1] == '\r' {
                end -= 1;
            }
            let line = slice_range(v, start, end);
            assert(line@ =~= strip_cr(rest.take(i - start)));
            out.push(line);
            proof {
                let old_acc = acc;
                acc = acc.push(line@);
                assert(lines(v@) =~= acc + lines(v@.skip(i + 1))) by {
                    assert(old_acc + (seq![line@] + lines(v@.skip(i + 1))) =~= acc + lines(
                        v@.skip(i + 1),
                    ));
                }
            }
            start = i + 1;
        }
        i += 1;
    }
    let ghost rest = v@.skip(start as int);
    if start < v.len() {
        let line = slice_range(v, start, v.len());
        proof {
            assert forall|j: int| 0 <= j < rest.len() implies #[trigger] rest[j] != '\n' by {
                assert(rest[j] == v@[j + start]);
            }
            lemma_first_index(rest, '\n', rest.len() as int);
            assert(line@ =~= rest);
        }
        out.push(line);
        proof {
            acc = acc.push(line@);
            assert(lines(v@) =~= acc);
        }
    } else {
        assert(rest.len() == 0);
        assert(lines(v@) =~= acc);
    }
    out
}

/// Value of an ASCII digit.
pub open spec fn digit_value(c: char) -> nat {
    (c as int - '0' as int) as nat
}

/// The ASCII digit for `d < 10`.
pub open spec fn digit_char(d: nat) -> char {
    (d + '0' as int) as char
}

/// Every character is an ASCII digit.
pub open spec fn all_digits(s: Seq<char>) -> bool {
    forall|i: int| 0 <= i < s.len() ==> is_digit(#[trigger] s[i])
}

/// The number written by a string of decimal digits.
pub open spec fn digits_value(s: Seq<char>) -> nat
    decreases s.len(),
{
    if s.len() == 0 {
        0
    } else {
        digits_value(s.drop_last()) * 10 + digit_value(s.last())
    }
}

/// `FromStr` of an unsigned integer type whose largest value is `max`: an
/// optional `+`, then one or more ASCII digits, with a value that fits.
pub open spec fn parse_unsigned(s: Seq<char>, max: nat) -> Option<nat> {
    let d = if s.len() > 0 && s[0] == '+' {
        s.drop_first()
    } else {
        s
    };
    if d.len() > 0 && all_digits(d) && digits_value(d) <= max {
        Some(digits_value(d))
    } else {
        None
    }
}

/// Decimal notation of `n`, without leading zeros.
pub open spec fn decimal(n: nat) -> Seq<char>
    decreases n,
{
    if n < 10 {
        seq![digit_char(n)]
    } else {
        decimal(n / 10).push(digit_char(n % 10))
    }
}

proof fn lemma_digits_value_push(s: Seq<char>, c: char)
    ensures
        digits_value(s.push(c)) == digits_value(s) * 10 + digit_value(c),
{
    assert(s.push(c).drop_last() =~= s);
}

/// Parsing the decimal notation of `n` gives `n` back.
pub proof fn lemma_decimal_parse(n: nat, max: nat)
    requires
        n <= max,
    ensures
        parse_unsigned(decimal(n), max) == Some(n),
        all_digits(decimal(n)),
        digits_value(decimal(n)) == n,
        decimal(n).len() > 0,
    decreases n,
{
    if n < 10 {
        assert(digits_value(decimal(n)) == digits_value(seq![digit_char(n)].drop_last()) * 10
            + digit_value(digit_char(n)));
        assert(seq![digit_char(n)].drop_last() =~= Seq::<char>::empty());
    } else {
        lemma_decimal_parse(n / 10, max);
        lemma_digits_value_push(decimal(n / 10), digit_char(n % 10));
        assert(n == (n / 10) * 10 + n % 10);
    }
}

/// The decimal digits of `n` are appended to `s`.
pub fn push_decimal(s: &mut String, n: u64)
    ensures
        final(s)@ == old(s)@ + decimal(n as nat),
    decreases n,
{
    if n >= 10 {
        push_decimal(s, n / 10);
    }
    let d = (n % 10) as u32;
    let c = digit_to_char(d);
    push_char(s, c);
    assert(old(s)@ + decimal(n as nat) =~= s@) by {
        if n >= 10 {
            assert(decimal(n as nat) == decimal((n / 10) as nat).push(digit_char((n % 10) as nat)));
        }
    }
}

/// The ASCII digit character for `d`.
pub fn digit_to_char(d: u32) -> (c: char)
    requires
        d < 10,
    ensures
        c == digit_char(d as nat),
{
    match d {
        0 => '0',
        1 => '1',
        2 => '2',
        3 => '3',
        4 => '4',
        5 => '5',
        6 => '6',
        7 => '7',
        8 => '8',
        _ => '9',
    }
}

/// Decimal notation of `n` as a string.
pub fn u64_to_string(n: u64) -> (r: String)
    ensures
        r@ == decimal(n as nat),
{
    let mut s = String::new();
    push_decimal(&mut s, n);
    assert(s@ =~= decimal(n as nat));
    s
}

proof fn lemma_digits_value_mono(s: Seq<char>, i: int)
    requires
        0 <= i <= s.len(),
    ensures
        digits_value(s.take(i)) <= digits_value(s),
    decreases s.len() - i,
{
    if i < s.len() {
        lemma_digits_value_mono(s, i + 1);
        lemma_digits_value_push(s.take(i), s[i]);
        assert(s.take(i).push(s[i]) =~= s.take(i + 1));
    } else {
        assert(s.take(i) =~= s);
    }
}

/// `FromStr` for an unsigned integer type whose largest value is `max`
/// (see [`parse_unsigned`]).
pub fn parse_unsigned_chars(v: &[char], max: u64) -> (r: Option<u64>)
    ensures
        r matches Some(n) ==> parse_unsigned(v@, max as nat) == Some(n as nat),
        r is None ==> parse_unsigned(v@, max as nat) is None,
{
    let n = v.len();
    let start: usize = if n > 0 && v[0] == '+' {
        1
    } else {
        0
    };
    let ghost d = if v@.len() > 0 && v@[0] == '+' {
        v@.drop_first()
    } else {
        v@
    };
    assert(d =~= v@.subrange(start as int, n as int));
    if start == n {
        return None;
    }
    let mut acc: u64 = 0;
    let mut i: usize = start;
    while i < n
        invariant
            start <= i <= n == v@.len(),
            start < n,
            d == v@.subrange(start as int, n as int),
            d == (if v@.len() > 0 && v@[0] == '+' {
                v@.drop_first()
            } else {
                v@
            }),
            all_digits(d.take(i - start)),
            acc as nat == digits_value(d.take(i - start)),
            acc <= max,
        decreases n - i,
    {
        let c = v[i];
        let ghost p = d.take(i - start);
        assert(d.take(i - start + 1) =~= p.push(c));
        proof {
            lemma_digits_value_push(p, c);
        }
        if !('0' <= c && c <= '9') {
            assert(!all_digits(d)) by {
                assert(d[i - start] == c);
            }
            return None;
        }
        let dv: u64 = (c as u32 - '0' as u32) as u64;
        assert(dv as nat == digit_value(c));
        let next: u128 = acc as u128 * 10 + dv as u128;
        if next > max as u128 {
            proof {
                lemma_digits_value_mono(d, i - start + 1);
            }
            return None;
        }
        acc = next as u64;
        i += 1;
    }
    assert(d.take(n - start) =~= d);
    Some(acc)
}

/// `str::split(c)`: the pieces between occurrences of `c` (at least one).
pub open spec fn split_on(s: Seq<char>, c: char) -> Seq<Seq<char>>
    decreases s.len(),
{
    match first_index(s, c) {
        None => seq![s],
        Some(i) => {
            proof {
                lemma_first_index_props(s, c);
            }
            seq![s.take(i)] + split_on(s.skip(i + 1), c)
        },
    }
}

/// The pieces of `v` between occurrences of `c` (see [`split_on`]).
pub fn split_chars(v: &[char], c: char) -> (r: Vec<Vec<char>>)
    ensures
        r@.len() == split_on(v@, c).len(),
        forall|i: int| 0 <= i < r@.len() ==> #[trigger] r@[i]@ == split_on(v@, c)[i],
{
    let mut out: Vec<Vec<char>> = Vec::new();
    let ghost mut acc: Seq<Seq<char>> = seq![];
    let mut start: usize = 0;
    let mut i: usize = 0;
    assert(v@.skip(0) =~= v@);
    assert(acc + split_on(v@, c) =~= split_on(v@, c));
    while i < v.len()
        invariant
            start <= i <= v@.len(),
            forall|j: int| start <= j < i ==> #[trigger] v@[j] != c,
            out@.len() == acc.len(),
            forall|k: int| 0 <= k < acc.len() ==> #[trigger] out@[k]@ == acc[k],
            split_on(v@, c) == acc + split_on(v@.skip(start as int), c),
        decreases v@.len() - i,
    {
        if v[i] == c {
            let ghost rest = v@.skip(start as int);
            proof {
                assert forall|j: int| 0 <= j < i - start implies #[trigger] rest[j] != c by {
                    assert(rest[j] == v@[j + start]);
                }
                lemma_first_index(rest, c, i - start);
                assert(rest.skip(i - start + 1) =~= v@.skip(i + 1));
                assert(rest.take(i - start) =~= v@.subrange(start as int, i as int));
            }
            let piece = slice_range(v, start, i);
            out.push(piece);
            proof {
                let old_acc = acc;
                acc = acc.push(piece@);
                assert(old_acc + (seq![piece@] + split_on(v@.skip(i + 1), c)) =~= acc + split_on(
                    v@.skip(i + 1),
                    c,
                ));
            }
            start = i + 1;
        }
        i += 1;
    }
    let ghost rest = v@.skip(start as int);
    let piece = slice_range(v, start, v.len());
    proof {
        assert forall|j: int| 0 <= j < rest.len() implies #[trigger] rest[j] != c by {
            assert(rest[j] == v@[j + start]);
        }
        lemma_first_index(rest, c, rest.len() as int);
        assert(piece@ =~= rest);
    }
    out.push(piece);
    proof {
        acc = acc.push(piece@);
        assert(split_on(v@, c) =~= acc);
    }
    out
}

/// The longest prefix made of ASCII digits.
pub open spec fn leading_digits(s: Seq<char>) -> Seq<char>
    decreases s.len(),
{
    if s.len() > 0 && is_digit(s[0]) {
        seq![s[0]] + leading_digits(s.drop_first())
    } else {
        seq![]
    }
}

proof fn lemma_leading_digits(s: Seq<char>, k: int)
    requires
        0 <= k <= s.len(),
        forall|j: int| 0 <= j < k ==> is_digit(#[trigger] s[j]),
        k == s.len() || !is_digit(s[k]),
    ensures
        leading_digits(s) == s.take(k),
    decreases k,
{
    if k == 0 {
        assert(s.take(0) =~= Seq::<char>::empty());
    } else {
        lemma_leading_digits(s.drop_first(), k - 1);
        assert(seq![s[0]] + s.drop_first().take(k - 1) =~= s.take(k));
    }
}

/// Executable [`leading_digits`].
pub fn leading_digits_chars(v: &[char]) -> (r: Vec<char>)
    ensures
        r@ == leading_digits(v@),
{
    let mut k: usize = 0;
    while k < v.len() && '0' <= v[k] && v[k] <= '9'
        invariant
            k <= v@.len(),
            forall|j: int| 0 <= j < k ==> is_digit(#[trigger] v@[j]),
        decreases v@.len() - k,
    {
        k += 1;
    }
    proof {
        lemma_leading_digits(v@, k as int);
    }
    let r = slice_range(v, 0, k);
    assert(r@ =~= v@.take(k as int));
    r
}

/// A text whose first and last characters are not whitespace is its own
/// trim.
pub proof fn lemma_trim_id(s: Seq<char>)
    requires
        s.len() > 0,
        !is_space(s[0]),
        !is_space(s.last()),
    ensures
        trim(s) == s,
{
}

/// `first_index` of `c` in `a + [c] + b` when `a` has no `c`.
pub proof fn lemma_first_index_concat(a: Seq<char>, b: Seq<char>, c: char)
    requires
        !a.contains(c),
    ensures
        first_index(a + seq![c] + b, c) == Some(a.len() as int),
        (a + seq![c] + b).take(a.len() as int) == a,
        (a + seq![c] + b).skip(a.len() as int + 1) == b,
{
    let s = a + seq![c] + b;
    assert forall|j: int| 0 <= j < a.len() implies #[trigger] s[j] != c by {
        assert(s[j] == a[j]);
        if a[j] == c {
            assert(a.contains(c));
        }
    }
    lemma_first_index(s, c, a.len() as int);
    assert(s.take(a.len() as int) =~= a);
    assert(s.skip(a.len() as int + 1) =~= b);
}

/// `first_index` of `c` in a text without `c`.
pub proof fn lemma_first_index_none(a: Seq<char>, c: char)
    requires
        !a.contains(c),
    ensures
        first_index(a, c) is None,
{
    lemma_first_index_props(a, c);
}

proof fn lemma_trim_start_len(s: Seq<char>)
    ensures
        trim_start(s).len() <= s.len(),
        s.len() > 0 && is_space(s[0]) ==> trim_start(s).len() < s.len(),
    decreases s.len(),
{
    if s.len() > 0 && is_space(s[0]) {
        lemma_trim_start_len(s.drop_first());
    }
}

proof fn lemma_trim_end_len(s: Seq<char>)
    ensures
        trim_end(s).len() <= s.len(),
        s.len() > 0 && is_space(s.last()) ==> trim_end(s).len() < s.len(),
    decreases s.len(),
{
    if s.len() > 0 && is_space(s.last()) {
        lemma_trim_end_len(s.drop_last());
    }
}

/// A nonempty text that is its own trim starts and ends with non-space.
pub proof fn lemma_trim_fixed(s: Seq<char>)
    requires
        trim(s) == s,
        s.len() > 0,
    ensures
        !is_space(s[0]),
        !is_space(s.last()),
{
    lemma_trim_start_len(s);
    lemma_trim_end_len(trim_start(s));
    if !is_space(s[0]) {
        assert(trim_start(s) == s);
        lemma_trim_end_len(s);
    }
}

/// Lines joined with `\n` between them.
pub open spec fn join_lines(ls: Seq<Seq<char>>) -> Seq<char>
    decreases ls.len(),
{
    if ls.len() == 0 {
        seq![]
    } else if ls.len() == 1 {
        ls[0]
    } else {
        ls[0] + seq!['\n'] + join_lines(ls.drop_first())
    }
}

/// Joining one more line appends `\n` and the line.
pub proof fn lemma_join_push(ls: Seq<Seq<char>>, x: Seq<char>)
    requires
        ls.len() > 0,
    ensures
        join_lines(ls.push(x)) == join_lines(ls) + seq!['\n'] + x,
    decreases ls.len(),
{
    if ls.len() == 1 {
        assert(ls.push(x).drop_first() =~= seq![x]);
        assert(join_lines(seq![x]) == x);
        assert(ls.push(x)[0] == ls[0]);
        assert(join_lines(ls) == ls[0]);
    } else {
        lemma_join_push(ls.drop_first(), x);
        assert(ls.push(x).drop_first() =~= ls.drop_first().push(x));
        assert(join_lines(ls.push(x)) =~= join_lines(ls) + seq!['\n'] + x);
    }
}

/// A line fit to be joined and split back: nonempty, without `\n`, not
/// ending in `\r`.
pub open spec fn plain_line(l: Seq<char>) -> bool {
    &&& l.len() > 0
    &&& !l.contains('\n')
    &&& l.last() != '\r'
}

/// Splitting joined plain lines gives them back.
pub proof fn lemma_lines_join(ls: Seq<Seq<char>>)
    requires
        forall|i: int| 0 <= i < ls.len() ==> plain_line(#[trigger] ls[i]),
    ensures
        lines(join_lines(ls)) == ls,
    decreases ls.len(),
{
    if ls.len() == 0 {
    } else if ls.len() == 1 {
        assert(plain_line(ls[0]));
        lemma_first_index_none(ls[0], '\n');
        assert(lines(ls[0]) =~= seq![ls[0]]);
        assert(ls =~= seq![ls[0]]);
    } else {
        assert(plain_line(ls[0]));
        let rest = ls.drop_first();
        assert forall|i: int| 0 <= i < rest.len() implies plain_line(#[trigger] rest[i]) by {
            assert(rest[i] == ls[i + 1]);
            assert(plain_line(ls[i + 1]));
        }
        lemma_lines_join(rest);
        lemma_first_index_concat(ls[0], join_lines(rest), '\n');
        assert(lines(join_lines(ls)) =~= seq![ls[0]] + rest);
        assert(ls =~= seq![ls[0]] + rest);
    }
}

/// A text with a non-space character does not trim to nothing.
pub proof fn lemma_trim_nonempty(s: Seq<char>, i: int)
    requires
        0 <= i < s.len(),
        !is_space(s[i]),
    ensures
        trim(s).len() > 0,
    decreases s.len(),
{
    lemma_trim_start_keeps(s, i);
    let t = trim_start(s);
    lemma_trim_end_keeps(t);
}

proof fn lemma_trim_start_keeps(s: Seq<char>, i: int)
    requires
        0 <= i < s.len(),
        !is_space(s[i]),
    ensures
        trim_start(s).len() > 0,
        !is_space(trim_start(s)[0]),
    decreases s.len(),
{
    if is_space(s[0]) {
        lemma_trim_start_keeps(s.drop_first(), i - 1);
    }
}

proof fn lemma_trim_end_keeps(t: Seq<char>)
    requires
        t.len() > 0,
        !is_space(t[0]),
    ensures
        trim_end(t).len() > 0,
    decreases t.len(),
{
    if t.len() > 1 && is_space(t.last()) {
        lemma_trim_end_keeps(t.drop_last());
    }
}

/// The lines whose trim is not empty, in order.
pub open spec fn nonblank(ls: Seq<Seq<char>>) -> Seq<Seq<char>>
    decreases ls.len(),
{
    if ls.len() == 0 {
        seq![]
    } else if trim(ls.last()).len() == 0 {
        nonblank(ls.drop_last())
    } else {
        nonblank(ls.drop_last()).push(ls.last())
    }
}

/// No line is dropped when none is blank.
pub proof fn lemma_nonblank_all(ls: Seq<Seq<char>>)
    requires
        forall|i: int| 0 <= i < ls.len() ==> trim(#[trigger] ls[i]).len() > 0,
    ensures
        nonblank(ls) == ls,
    decreases ls.len(),
{
    if ls.len() > 0 {
        let p = ls.drop_last();
        assert forall|i: int| 0 <= i < p.len() implies trim(#[trigger] p[i]).len() > 0 by {
            assert(p[i] == ls[i]);
        }
        lemma_nonblank_all(p);
        assert(trim(ls[ls.len() - 1]).len() > 0);
        assert(p.push(ls.last()) =~= ls);
    }
}

/// `s` has no character `c`.
pub open spec fn lacks(s: Seq<char>, c: char) -> bool {
    forall|i: int| 0 <= i < s.len() ==> #[trigger] s[i] != c
}

pub proof fn lemma_lacks(s: Seq<char>, c: char)
    requires
        lacks(s, c),
    ensures
        !s.contains(c),
{
}

pub proof fn lemma_decimal_lacks(n: nat, c: char)
    requires
        !('0' <= c <= '9'),
    ensures
        lacks(decimal(n), c),
{
    lemma_decimal_parse(n, n);
}

} // verus!
