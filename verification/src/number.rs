//! The profile's number format: what the editor writes into a geometry
//! attribute, so that an unedited re-export is byte-stable and a diff of a
//! drawing means the drawing changed.
//!
//! A plain decimal with at most three decimals, trailing zeros dropped, no
//! trailing point, and `-0` written as `0`. The formatter itself works in
//! floating point and lives with the host; here is the format as the
//! profile states it, a grammar.

use vstd::prelude::*;

use crate::text::to_chars;

verus! {

pub open spec fn is_digit(c: char) -> bool {
    '0' <= c && c <= '9'
}

/// Whether `s[a..b]` is all digits.
pub open spec fn digits(s: Seq<char>, a: int, b: int) -> bool {
    forall|i: int| a <= i < b ==> is_digit(#[trigger] s[i])
}

/// An integer part with no leading zero: `0`, or a non-zero digit and
/// more digits.
pub open spec fn int_part(s: Seq<char>, a: int, b: int) -> bool {
    &&& a < b
    &&& digits(s, a, b)
    &&& (b - a == 1 || s[a] != '0')
}

/// The profile's format: a plain decimal — an optional `-`, the integer
/// part, and at most three decimals after a point, the last not a zero —
/// with `0` rather than `-0`.
pub open spec fn canonical(s: Seq<char>) -> bool {
    let a: int = if s.len() > 0 && s[0] == '-' {
        1
    } else {
        0
    };
    let p: int = match crate::text::find_char(s, '.', 0) {
        Some(i) => i,
        None => s.len() as int,
    };
    &&& int_part(s, a, p)
    &&& (p == s.len() || (p + 1 < s.len() && s.len() - p - 1 <= 3 && digits(
        s,
        p + 1,
        s.len() as int,
    ) && s.last() != '0'))
    &&& !(s == "-0"@)
}

/// Whether `text` is in the profile's format: whether it is a plain decimal
/// as the profile's number rule writes one, so that re-writing its value
/// leaves the bytes as they are.
#[verifier::loop_isolation(false)]
pub fn is_canonical(text: &str) -> (r: bool)
    ensures
        r == canonical(text@),
{
    let v = to_chars(text);
    let n = v.len();
    proof {
        reveal_strlit("-0");
    }
    let a: usize = if n > 0 && v[0] == '-' {
        1
    } else {
        0
    };
    proof {
        crate::text::lemma_find_char(v@, '.', 0);
    }
    let p = match crate::text::find_ch(v.as_slice(), '.', 0) {
        Some(i) => i,
        None => n,
    };
    // the integer part
    if !(a < p) {
        return false;
    }
    let mut i = a;
    while i < p
        invariant
            a <= i <= p <= n,
            n == v@.len(),
            digits(v@, a as int, i as int),
        decreases p - i,
    {
        if !('0' <= v[i] && v[i] <= '9') {
            assert(!is_digit(v@[i as int]));
            return false;
        }
        i += 1;
    }
    if p - a > 1 && v[a] == '0' {
        return false;
    }
    // the decimals
    if p < n {
        if !(p + 1 < n && n - p - 1 <= 3 && v[n - 1] != '0') {
            return false;
        }
        let mut j = p + 1;
        while j < n
            invariant
                p + 1 <= j <= n,
                n == v@.len(),
                digits(v@, p + 1, j as int),
            decreases n - j,
        {
            if !('0' <= v[j] && v[j] <= '9') {
                assert(!is_digit(v@[j as int]));
                return false;
            }
            j += 1;
        }
    }
    let minus_zero = n == 2 && v[0] == '-' && v[1] == '0';
    assert(minus_zero <==> v@ == "-0"@) by {
        if v@ == "-0"@ {
            assert(v@[0] == '-' && v@[1] == '0');
        }
        if minus_zero {
            assert(v@ =~= "-0"@);
        }
    }
    !minus_zero
}

/// The first `c` from `from` on is the one at `k` when none comes before it.
proof fn lemma_find_char_at(s: Seq<char>, c: char, from: int, k: int)
    requires
        0 <= from <= k < s.len(),
        s[k] == c,
        forall|j: int| from <= j < k ==> s[j] != c,
    ensures
        crate::text::find_char(s, c, from) == Some(k),
    decreases k - from,
{
    if from < k {
        lemma_find_char_at(s, c, from + 1, k);
    }
}

/// The format is tight: a value in it leaves it when a `0` is written after
/// its decimals (no trailing zero), when a fourth decimal is written after
/// three (at most three decimals), or when a `0` is written before a value
/// without a sign (no leading zero).
pub proof fn lemma_format_is_tight(s: Seq<char>, d: char)
    requires
        canonical(s),
        is_digit(d),
    ensures
        s.contains('.') ==> !canonical(s.push('0')),
        s.len() >= 4 && s[s.len() - 4] == '.' ==> !canonical(s.push(d)),
        s[0] != '-' ==> !canonical(seq!['0'] + s),
{
    crate::text::lemma_find_char(s, '.', 0);
    if s.contains('.') {
        let w = choose|w: int| 0 <= w < s.len() && s[w] == '.';
        let p = crate::text::find_char(s, '.', 0)->0;
        assert(p <= w);
        let t = s.push('0');
        lemma_find_char_at(t, '.', 0, p);
        assert(t.last() == '0');
        let u = s.push(d);
        lemma_find_char_at(u, '.', 0, p);
        if s.len() >= 4 && s[s.len() - 4] == '.' {
            assert(p == s.len() - 4) by {
                if p < s.len() - 4 {
                    assert(!is_digit(s[s.len() - 4]));
                }
            }
            assert(u.len() - p - 1 == 4);
        }
    }
    if s[0] != '-' {
        let t = seq!['0'] + s;
        assert(t[0] == '0');
        match crate::text::find_char(s, '.', 0) {
            Some(p) => {
                assert forall|j: int| 0 <= j < p + 1 implies t[j] != '.' by {
                    if j > 0 {
                        assert(t[j] == s[j - 1]);
                    }
                }
                assert(t[p + 1] == s[p]);
                lemma_find_char_at(t, '.', 0, p + 1);
            },
            None => {
                crate::text::lemma_find_char(t, '.', 0);
                assert forall|j: int| 0 <= j < t.len() implies t[j] != '.' by {
                    if j > 0 {
                        assert(t[j] == s[j - 1]);
                    }
                }
            },
        }
    }
}

} // verus!
