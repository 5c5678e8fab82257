//! Characters: what whitespace is, trimming, searching and the conversions
//! between `str`, `String` and `Vec<char>` the rest of the crate works in.
//! Every contract in the crate speaks of a string by its view, the
//! sequence of its characters.

use vstd::prelude::*;
use vstd::string::*;

verus! {

/// Unicode's `White_Space` property: what `char::is_whitespace` answers
/// and what `str::trim` and `str::split_whitespace` cut on.
pub open spec fn is_ws(c: char) -> bool {
    ||| c == '\t' || c == '\n' || c == '\u{0B}' || c == '\u{0C}' || c == '\r' || c == ' '
    ||| c == '\u{85}' || c == '\u{A0}' || c == '\u{1680}'
    ||| ('\u{2000}' <= c && c <= '\u{200A}')
    ||| c == '\u{2028}' || c == '\u{2029}' || c == '\u{202F}' || c == '\u{205F}' || c == '\u{3000}'
}

/// Whether `c` is whitespace in Unicode's sense.
pub fn is_whitespace(c: char) -> (r: bool)
    ensures
        r == is_ws(c),
{
    c == '\t' || c == '\n' || c == '\u{0B}' || c == '\u{0C}' || c == '\r' || c == ' ' || c
        == '\u{85}' || c == '\u{A0}' || c == '\u{1680}' || ('\u{2000}' <= c && c <= '\u{200A}')
        || c == '\u{2028}' || c == '\u{2029}' || c == '\u{202F}' || c == '\u{205F}' || c
        == '\u{3000}'
}

/// `s` without its leading whitespace.
pub open spec fn trim_start(s: Seq<char>) -> Seq<char>
    decreases s.len(),
{
    if s.len() > 0 && is_ws(s[0]) {
        trim_start(s.drop_first())
    } else {
        s
    }
}

/// `s` without its trailing whitespace.
pub open spec fn trim_end(s: Seq<char>) -> Seq<char>
    decreases s.len(),
{
    if s.len() > 0 && is_ws(s.last()) {
        trim_end(s.drop_last())
    } else {
        s
    }
}

/// `s` without whitespace at either end: `str::trim`.
pub open spec fn trim(s: Seq<char>) -> Seq<char> {
    trim_end(trim_start(s))
}

/// Whether every character of `s` is whitespace.
pub open spec fn all_ws(s: Seq<char>) -> bool {
    forall|i: int| 0 <= i < s.len() ==> is_ws(#[trigger] s[i])
}

/// Whether `s` starts with `p`.
pub open spec fn starts_with(s: Seq<char>, p: Seq<char>) -> bool {
    p.len() <= s.len() && s.subrange(0, p.len() as int) == p
}

/// Whether `p` occurs in `s` at `i`.
pub open spec fn occurs_at(s: Seq<char>, p: Seq<char>, i: int) -> bool {
    0 <= i && i + p.len() <= s.len() && s.subrange(i, i + p.len()) == p
}

/// Whether `p` occurs anywhere in `s`.
pub open spec fn contains(s: Seq<char>, p: Seq<char>) -> bool {
    exists|i: int| occurs_at(s, p, i)
}

/// The first index at or after `from` where `p` occurs in `s`.
pub open spec fn find_from(s: Seq<char>, p: Seq<char>, from: int) -> Option<int>
    decreases s.len() + 1 - from,
{
    if from < 0 || from + p.len() > s.len() {
        None
    } else if occurs_at(s, p, from) {
        Some(from)
    } else {
        find_from(s, p, from + 1)
    }
}

/// The first index at or after `from` holding `c`.
pub open spec fn find_char(s: Seq<char>, c: char, from: int) -> Option<int>
    decreases s.len() - from,
{
    if from < 0 || from >= s.len() {
        None
    } else if s[from] == c {
        Some(from)
    } else {
        find_char(s, c, from + 1)
    }
}

/// The characters of `s`, in order.
pub fn to_chars(s: &str) -> (v: Vec<char>)
    ensures
        v@ == s@,
{
    broadcast use vstd::string::group_string_axioms;

    let mut v: Vec<char> = Vec::new();
    for c in it: s.chars()
        invariant
            v@ == it.seq().take(it.index() as int),
            it.seq() == s@,
    {
        v.push(c);
        assert(v@ =~= it.seq().take(it.index() as int + 1));
    }
    assert(v@ =~= s@);
    v
}

/// Append one character: `String::push`.
#[verifier::external_body]
pub fn push_char(s: &mut String, c: char)
    ensures
        final(s)@ == old(s)@.push(c),
{
    s.push(c);
}

/// Append a string.
pub fn push_str(s: &mut String, t: &str)
    ensures
        final(s)@ == old(s)@ + t@,
{
    s.append(t);
}

/// Whether two strings hold the same characters.
pub fn str_eq(a: &str, b: &str) -> (r: bool)
    ensures
        r == (a@ == b@),
{
    let va = to_chars(a);
    let vb = to_chars(b);
    if va.len() != vb.len() {
        return false;
    }
    let mut i: usize = 0;
    while i < va.len()
        invariant
            i <= va@.len(),
            va@.len() == vb@.len(),
            va@ == a@,
            vb@ == b@,
            forall|j: int| 0 <= j < i ==> va@[j] == vb@[j],
        decreases va@.len() - i,
    {
        if va[i] != vb[i] {
            return false;
        }
        i += 1;
    }
    assert(va@ =~= vb@);
    true
}

/// A `String` of the characters `v[from..to]`.
pub fn string_of(v: &[char], from: usize, to: usize) -> (s: String)
    requires
        from <= to <= v@.len(),
    ensures
        s@ == v@.subrange(from as int, to as int),
{
    let mut s = String::new();
    let mut i = from;
    while i < to
        invariant
            from <= i <= to <= v@.len(),
            s@ == v@.subrange(from as int, i as int),
        decreases to - i,
    {
        push_char(&mut s, v[i]);
        assert(s@ =~= v@.subrange(from as int, i + 1));
        i += 1;
    }
    s
}

/// Append `v[from..to]` to `s`.
pub fn push_chars(s: &mut String, v: &[char], from: usize, to: usize)
    requires
        from <= to <= v@.len(),
    ensures
        final(s)@ == old(s)@ + v@.subrange(from as int, to as int),
{
    let ghost start = s@;
    let mut i = from;
    while i < to
        invariant
            from <= i <= to <= v@.len(),
            s@ == start + v@.subrange(from as int, i as int),
        decreases to - i,
    {
        push_char(s, v[i]);
        assert(s@ =~= start + v@.subrange(from as int, i + 1));
        i += 1;
    }
}

/// Where the trimmed `v[from..to]` starts: the first non-whitespace
/// character, or `to`.
pub fn skip_ws(v: &[char], from: usize, to: usize) -> (k: usize)
    requires
        from <= to <= v@.len(),
    ensures
        from <= k <= to,
        trim_start(v@.subrange(from as int, to as int)) == v@.subrange(k as int, to as int),
        all_ws(v@.subrange(from as int, k as int)),
{
    let mut k = from;
    while k < to && is_whitespace(v[k])
        invariant
            from <= k <= to <= v@.len(),
            trim_start(v@.subrange(from as int, to as int)) == trim_start(
                v@.subrange(k as int, to as int),
            ),
            all_ws(v@.subrange(from as int, k as int)),
        decreases to - k,
    {
        assert(v@.subrange(k as int, to as int).drop_first() =~= v@.subrange(
            k + 1,
            to as int,
        ));
        assert(v@.subrange(from as int, k + 1) =~= v@.subrange(from as int, k as int).push(
            v@[k as int],
        ));
        k += 1;
    }
    k
}

/// Where the trimmed `v[from..to]` ends: one past its last
/// non-whitespace character, or `from`.
pub fn back_ws(v: &[char], from: usize, to: usize) -> (k: usize)
    requires
        from <= to <= v@.len(),
    ensures
        from <= k <= to,
        trim_end(v@.subrange(from as int, to as int)) == v@.subrange(from as int, k as int),
        all_ws(v@.subrange(k as int, to as int)),
{
    let mut k = to;
    while k > from && is_whitespace(v[k - 1])
        invariant
            from <= k <= to <= v@.len(),
            trim_end(v@.subrange(from as int, to as int)) == trim_end(
                v@.subrange(from as int, k as int),
            ),
            all_ws(v@.subrange(k as int, to as int)),
        decreases k - from,
    {
        assert(v@.subrange(from as int, k as int).drop_last() =~= v@.subrange(
            from as int,
            k - 1,
        ));
        assert(v@.subrange(k - 1, to as int) =~= seq![v@[k - 1]] + v@.subrange(
            k as int,
            to as int,
        ));
        k -= 1;
    }
    k
}

/// `trim_end(s)` is a prefix of `s`.
pub proof fn lemma_trim_end_prefix(s: Seq<char>)
    ensures
        trim_end(s).len() <= s.len(),
        trim_end(s) == s.subrange(0, trim_end(s).len() as int),
    decreases s.len(),
{
    if s.len() > 0 && is_ws(s.last()) {
        lemma_trim_end_prefix(s.drop_last());
        assert(s.drop_last().subrange(0, trim_end(s.drop_last()).len() as int) =~= s.subrange(
            0,
            trim_end(s.drop_last()).len() as int,
        ));
    } else {
        assert(s.subrange(0, s.len() as int) =~= s);
    }
}

/// The bounds of the trimmed `v[from..to]`.
pub fn trim_range(v: &[char], from: usize, to: usize) -> (r: (usize, usize))
    requires
        from <= to <= v@.len(),
    ensures
        from <= r.0 <= r.1 <= to,
        trim(v@.subrange(from as int, to as int)) == v@.subrange(r.0 as int, r.1 as int),
{
    let a = skip_ws(v, from, to);
    let b = back_ws(v, a, to);
    (a, b)
}

/// `s` trimmed: `str::trim`.
pub fn trimmed(s: &str) -> (r: String)
    ensures
        r@ == trim(s@),
{
    let v = to_chars(s);
    let (a, b) = trim_range(v.as_slice(), 0, v.len());
    assert(v@.subrange(0, v@.len() as int) =~= v@);
    string_of(v.as_slice(), a, b)
}

/// Whether `v[at..]` starts with `p`.
pub fn matches_at(v: &[char], at: usize, p: &[char]) -> (r: bool)
    ensures
        r == occurs_at(v@, p@, at as int),
{
    let n = v.len();
    let m = p.len();
    if at > n || m > n - at {
        return false;
    }
    let mut j: usize = 0;
    while j < m
        invariant
            n == v@.len(),
            m == p@.len(),
            at + m <= n,
            j <= m,
            forall|k: int| 0 <= k < j ==> v@[at + k] == p@[k],
        decreases m - j,
    {
        if v[at + j] != p[j] {
            assert(v@.subrange(at as int, at + p@.len())[j as int] != p@[j as int]);
            return false;
        }
        j += 1;
    }
    assert(v@.subrange(at as int, at + p@.len()) =~= p@);
    true
}

/// The first index at or after `from` where `p` occurs in `v`.
pub fn find(v: &[char], p: &[char], from: usize) -> (r: Option<usize>)
    ensures
        r == (match find_from(v@, p@, from as int) {
            Some(i) => Some(i as usize),
            None => None::<usize>,
        }),
        r matches Some(i) ==> from <= i && i + p@.len() <= v@.len(),
{
    let n = v.len();
    let m = p.len();
    if from > n || m > n - from {
        return None;
    }
    let mut i = from;
    loop
        invariant
            n == v@.len(),
            m == p@.len(),
            m <= n,
            from <= i,
            i <= n - m,
            find_from(v@, p@, from as int) == find_from(v@, p@, i as int),
        decreases n - m - i,
    {
        if matches_at(v, i, p) {
            return Some(i);
        }
        if i == n - m {
            assert(find_from(v@, p@, i + 1) is None);
            return None;
        }
        i += 1;
    }
}

/// The first index at or after `from` holding `c`.
pub fn find_ch(v: &[char], c: char, from: usize) -> (r: Option<usize>)
    ensures
        r == (match find_char(v@, c, from as int) {
            Some(i) => Some(i as usize),
            None => None::<usize>,
        }),
        r matches Some(i) ==> from <= i < v@.len() && v@[i as int] == c,
{
    let mut i = from;
    while i < v.len()
        invariant
            from <= i,
            find_char(v@, c, from as int) == find_char(v@, c, i as int),
        decreases v@.len() - i,
    {
        if v[i] == c {
            return Some(i);
        }
        i += 1;
    }
    None
}

/// A copy of `v[from..to]`.
pub fn slice_vec(v: &[char], from: usize, to: usize) -> (r: Vec<char>)
    requires
        from <= to <= v@.len(),
    ensures
        r@ == v@.subrange(from as int, to as int),
{
    let mut r: Vec<char> = Vec::new();
    let mut i = from;
    while i < to
        invariant
            from <= i <= to <= v@.len(),
            r@ == v@.subrange(from as int, i as int),
        decreases to - i,
    {
        r.push(v[i]);
        assert(r@ =~= v@.subrange(from as int, i + 1));
        i += 1;
    }
    r
}

/// An owned copy of `s`: `str::to_owned`.
pub fn owned(s: &str) -> (r: String)
    ensures
        r@ == s@,
{
    s.to_owned()
}

pub proof fn lemma_find_char(s: Seq<char>, c: char, from: int)
    requires
        0 <= from,
    ensures
        find_char(s, c, from) matches Some(k) ==> from <= k < s.len() && s[k] == c && forall|j: int|
            from <= j < k ==> s[j] != c,
        find_char(s, c, from) is None ==> forall|k: int| from <= k < s.len() ==> s[k] != c,
    decreases s.len() - from,
{
    if 0 <= from < s.len() && s[from] != c {
        lemma_find_char(s, c, from + 1);
    }
}

pub proof fn lemma_find_from(s: Seq<char>, p: Seq<char>, from: int)
    ensures
        find_from(s, p, from) matches Some(k) ==> from <= k && occurs_at(s, p, k),
    decreases s.len() + 1 - from,
{
    if !(from < 0 || from + p.len() > s.len()) && !occurs_at(s, p, from) {
        lemma_find_from(s, p, from + 1);
    }
}


/// The digit that spells `d`.
pub open spec fn digit(d: nat) -> char {
    if d == 0 {
        '0'
    } else if d == 1 {
        '1'
    } else if d == 2 {
        '2'
    } else if d == 3 {
        '3'
    } else if d == 4 {
        '4'
    } else if d == 5 {
        '5'
    } else if d == 6 {
        '6'
    } else if d == 7 {
        '7'
    } else if d == 8 {
        '8'
    } else {
        '9'
    }
}

/// `n` in decimal, no leading zeros.
pub open spec fn decimal(n: nat) -> Seq<char>
    decreases n,
{
    if n < 10 {
        seq![digit(n)]
    } else {
        decimal(n / 10).push(digit(n % 10))
    }
}

/// The digit that spells `d`.
fn digit_char(d: u32) -> (c: char)
    requires
        d < 10,
    ensures
        c == digit(d as nat),
{
    match d {
        0 => '0',
        1 => '1',
        2 => '2',
        3 => '3',
        4 => '4',
        5 => '5',
        6 => '6',
        7 => '7',
        8 => '8',
        _ => '9',
    }
}

/// `n` in decimal.
pub fn decimal_of(n: u128) -> (r: String)
    ensures
        r@ == decimal(n as nat),
{
    let mut digits: Vec<char> = Vec::new();
    let mut m = n;
    // The digits come least significant first.
    while m >= 10
        invariant
            decimal(n as nat) == decimal(m as nat) + digits@.reverse(),
        decreases m,
    {
        let d = (m % 10) as u32;
        let c = digit_char(d);
        assert(c == digit((m % 10) as nat));
        let ghost before = digits@;
        digits.push(c);
        assert(digits@.reverse() =~= seq![c] + before.reverse());
        assert(decimal(m as nat) == decimal((m / 10) as nat).push(c));
        assert(decimal((m / 10) as nat).push(c) + before.reverse() =~= decimal((m / 10) as nat)
            + digits@.reverse());
        m = m / 10;
    }
    let c = digit_char(m as u32);
    digits.push(c);
    let mut r = String::new();
    let mut i = digits.len();
    while i > 0
        invariant
            i <= digits@.len(),
            r@ == digits@.subrange(i as int, digits@.len() as int).reverse(),
        decreases i,
    {
        push_char(&mut r, digits[i - 1]);
        assert(digits@.subrange(i - 1, digits@.len() as int).reverse() =~= digits@.subrange(
            i as int,
            digits@.len() as int,
        ).reverse().push(digits@[i - 1]));
        i -= 1;
    }
    assert(digits@.subrange(0, digits@.len() as int) =~= digits@);
    assert(digits@.reverse() =~= seq![c] + digits@.drop_last().reverse());
    r
}

/// The value of a run of decimal digits.
pub open spec fn digits_value(s: Seq<char>) -> nat
    decreases s.len(),
{
    if s.len() == 0 {
        0
    } else {
        digits_value(s.drop_last()) * 10 + ((s.last() as u32) - 48) as nat
    }
}

/// `s` without one leading `+`.
pub open spec fn unsigned(s: Seq<char>) -> Seq<char> {
    if s.len() > 0 && s[0] == '+' {
        s.drop_first()
    } else {
        s
    }
}

/// Whether every character of `s` is a decimal digit.
pub open spec fn all_digits(s: Seq<char>) -> bool {
    forall|i: int| 0 <= i < s.len() ==> '0' <= #[trigger] s[i] && s[i] <= '9'
}

/// What `u64::from_str` reads: an optional `+`, then one or more decimal
/// digits whose value fits.
pub open spec fn parse_u64(s: Seq<char>) -> Option<nat> {
    if unsigned(s).len() > 0 && all_digits(unsigned(s)) && digits_value(unsigned(s)) <= u64::MAX {
        Some(digits_value(unsigned(s)))
    } else {
        None
    }
}

/// `s` read as a `u64`, as `str::parse` reads it.
#[verifier::loop_isolation(false)]
pub fn read_u64(s: &[char], from: usize) -> (r: Option<u64>)
    requires
        from <= s@.len(),
    ensures
        (match r {
            Some(v) => Some(v as nat),
            None => None,
        }) == parse_u64(s@.subrange(from as int, s@.len() as int)),
{
    let ghost whole = s@.subrange(from as int, s@.len() as int);
    let a = if from < s.len() && s[from] == '+' {
        from + 1
    } else {
        from
    };
    let ghost t = s@.subrange(a as int, s@.len() as int);
    assert(t == unsigned(whole));
    if a >= s.len() {
        assert(t.len() == 0);
        assert(parse_u64(whole) is None);
        return None;
    }
    let mut v: u64 = 0;
    let mut i = a;
    while i < s.len()
        invariant
            a <= i <= s@.len(),
            t == s@.subrange(a as int, s@.len() as int),
            t == unsigned(whole),
            forall|k: int| a <= k < i ==> '0' <= #[trigger] s@[k] && s@[k] <= '9',
            v as nat == digits_value(s@.subrange(a as int, i as int)),
        decreases s@.len() - i,
    {
        let c = s[i];
        if !('0' <= c && c <= '9') {
            proof {
                assert(t[i - a] == c);
                assert(!all_digits(t));
                assert(parse_u64(whole) is None);
            }
            return None;
        }
        let d = (c as u32 - 48) as u64;
        assert(s@.subrange(a as int, i + 1).drop_last() =~= s@.subrange(a as int, i as int));
        if v > (u64::MAX - d) / 10 {
            proof {
                assert(digits_value(s@.subrange(a as int, i + 1)) > u64::MAX) by (nonlinear_arith)
                    requires
                        digits_value(s@.subrange(a as int, i + 1)) == v * 10 + d,
                        v > (u64::MAX - d) / 10,
                        d <= 9,
                ;
                if all_digits(t) {
                    lemma_digits_grow(t, (i - a + 1) as int);
                    assert(t.take(i - a + 1) =~= s@.subrange(a as int, i + 1));
                    assert(digits_value(t) > u64::MAX);
                }
                assert(parse_u64(whole) is None);
            }
            return None;
        }
        v = v * 10 + d;
        i += 1;
    }
    assert(forall|k: int| 0 <= k < t.len() ==> t[k] == s@[a + k]);
    Some(v)
}

/// Reading more digits never makes the value smaller.
proof fn lemma_digits_grow(t: Seq<char>, k: int)
    requires
        0 <= k <= t.len(),
        forall|i: int| 0 <= i < t.len() ==> '0' <= #[trigger] t[i] && t[i] <= '9',
    ensures
        digits_value(t.take(k)) <= digits_value(t),
    decreases t.len() - k,
{
    if k < t.len() {
        lemma_digits_grow(t, k + 1);
        assert(t.take(k + 1).drop_last() =~= t.take(k));
        assert(digits_value(t.take(k)) <= digits_value(t.take(k + 1))) by (nonlinear_arith)
            requires
                digits_value(t.take(k + 1)) == digits_value(t.take(k)) * 10 + ((t.take(k + 1).last() as u32) - 48) as nat,
        ;
    } else {
        assert(t.take(k) =~= t);
    }
}


/// The part of `s` between bytes `start` and `end`: `None` when that is not
/// a range of `s` between character boundaries.
pub fn byte_range(s: &str, start: usize, end: usize) -> (r: Option<&str>)
    ensures
        r matches Some(t) ==> start <= end <= vstd::utf8::encode_utf8(s@).len()
            && vstd::utf8::is_char_boundary(vstd::utf8::encode_utf8(s@), start as int)
            && vstd::utf8::is_char_boundary(vstd::utf8::encode_utf8(s@), end as int)
            && vstd::utf8::encode_utf8(t@) == vstd::utf8::encode_utf8(s@).subrange(
            start as int,
            end as int,
        ),
        r is None && vstd::utf8::encode_utf8(s@).len() <= usize::MAX ==> !(start <= end
            <= vstd::utf8::encode_utf8(s@).len()
            && vstd::utf8::is_char_boundary(vstd::utf8::encode_utf8(s@), start as int)
            && vstd::utf8::is_char_boundary(vstd::utf8::encode_utf8(s@), end as int)),
{
    broadcast use vstd::utf8::encode_utf8_valid_utf8, vstd::utf8::valid_utf8_split,
        vstd::utf8::is_char_boundary_iff_not_is_continuation_byte,
        vstd::utf8::is_char_boundary_start_end_of_seq;

    if start > end || end > s.len() {
        return None;
    }
    let ghost b = vstd::utf8::encode_utf8(s@);
    let a1 = s.is_char_boundary(start);
    let a2 = s.is_char_boundary(end);
    assert(s.spec_bytes() == b);
    assert(a1 == vstd::utf8::is_char_boundary(b, start as int));
    assert(a2 == vstd::utf8::is_char_boundary(b, end as int));
    if !a1 || !a2 {
        return None;
    }
    let (head, _) = s.split_at(end);
    proof {
        let h = vstd::utf8::encode_utf8(head@);
        assert(h =~= b.subrange(0, end as int));
        assert(vstd::utf8::valid_utf8(b));
        assert(vstd::utf8::valid_utf8(b.subrange(0, end as int)));
        if start < end {
            assert(h[start as int] == b[start as int]);
            vstd::utf8::is_char_boundary_iff_not_is_continuation_byte(b, start as int);
            vstd::utf8::is_char_boundary_iff_not_is_continuation_byte(h, start as int);
        } else {
            vstd::utf8::is_char_boundary_start_end_of_seq(h);
        }
        assert(vstd::utf8::is_char_boundary(h, start as int));
    }
    let (_, mid) = head.split_at(start);
    proof {
        assert(vstd::utf8::encode_utf8(mid@) =~= b.subrange(start as int, end as int));
    }
    Some(mid)
}


/// `s` with each occurrence of `p`, left to right and not overlapping,
/// replaced by `r`: `str::replace` for a non-empty pattern.
pub open spec fn replaced(s: Seq<char>, p: Seq<char>, r: Seq<char>) -> Seq<char>
    decreases s.len(),
{
    if p.len() == 0 || s.len() == 0 {
        s
    } else if occurs_at(s, p, 0) {
        r + replaced(s.skip(p.len() as int), p, r)
    } else {
        seq![s[0]] + replaced(s.drop_first(), p, r)
    }
}

/// `s` with each occurrence of `p` replaced by `r`, as `str::replace` does.
pub fn replace_all(s: &[char], p: &[char], r: &[char]) -> (out: String)
    requires
        p@.len() > 0,
    ensures
        out@ == replaced(s@, p@, r@),
{
    let mut out = String::new();
    let mut i: usize = 0;
    let r_str = string_of(r, 0, r.len());
    assert(r@.subrange(0, r@.len() as int) =~= r@);
    assert(s@.skip(0) =~= s@);
    assert(out@ + replaced(s@, p@, r@) =~= replaced(s@, p@, r@));
    while i < s.len()
        invariant
            i <= s@.len(),
            p@.len() > 0,
            r_str@ == r@,
            replaced(s@, p@, r@) == out@ + replaced(s@.skip(i as int), p@, r@),
        decreases s@.len() - i,
    {
        let ghost rest = s@.skip(i as int);
        if matches_at(s, i, p) {
            assert(occurs_at(rest, p@, 0)) by {
                assert(rest.subrange(0, p@.len() as int) =~= s@.subrange(i as int, i + p@.len()));
            }
            assert(rest.skip(p@.len() as int) =~= s@.skip(i + p@.len()));
            push_str(&mut out, r_str.as_str());
            i += p.len();
        } else {
            assert(!occurs_at(rest, p@, 0)) by {
                if p@.len() <= rest.len() {
                    assert(rest.subrange(0, p@.len() as int) =~= s@.subrange(i as int, i + p@.len()));
                }
            }
            assert(rest[0] == s@[i as int]);
            assert(rest.drop_first() =~= s@.skip(i + 1));
            push_char(&mut out, s[i]);
            i += 1;
        }
    }
    assert(s@.skip(i as int).len() == 0);
    out
}

} // verus!
