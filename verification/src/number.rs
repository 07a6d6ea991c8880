//! The grammar of numeric literals.
//!
//! A numeric literal is an unsigned decimal number: digits with at most one
//! decimal point among them, optionally followed by an exponent, which is
//! the letter `e` (in either case) and at least one digit. Examples are
//! `7`, `1.1111`, `.5`, `3.` and `2e10`; `.`, `1.2.3`, `1e` and `12ab` are
//! none.

use vstd::prelude::*;
use crate::chars::{digit, is_digit};

verus! {

/// Digits and at most one decimal point, with at least one digit.
pub open spec fn mantissa(s: Seq<char>) -> bool {
    &&& forall|i: int| 0 <= i < s.len() ==> digit(#[trigger] s[i]) || s[i] == '.'
    &&& forall|i: int, j: int|
        0 <= i < j < s.len() ==> !(#[trigger] s[i] == '.' && #[trigger] s[j] == '.')
    &&& exists|i: int| 0 <= i < s.len() && digit(#[trigger] s[i])
}

/// The exponent marker followed by one digit or more.
pub open spec fn exponent(s: Seq<char>) -> bool {
    &&& s.len() >= 2
    &&& s[0] == 'e' || s[0] == 'E'
    &&& forall|i: int| 1 <= i < s.len() ==> digit(#[trigger] s[i])
}

/// The first `k` characters of `s` are a mantissa, and the rest is empty or
/// an exponent.
pub open spec fn splits_at(s: Seq<char>, k: int) -> bool {
    &&& 0 <= k <= s.len()
    &&& mantissa(s.subrange(0, k))
    &&& k == s.len() || exponent(s.subrange(k, s.len() as int))
}

/// `s` is a numeric literal: a mantissa, then possibly an exponent.
pub open spec fn decimal_literal(s: Seq<char>) -> bool {
    exists|k: int| splits_at(s, k)
}

/// A literal can only be split where its leading run of digits and points
/// ends.
proof fn lemma_split_point(s: Seq<char>, m: int, k: int)
    requires
        0 <= m <= s.len(),
        forall|i: int| 0 <= i < m ==> digit(#[trigger] s[i]) || s[i] == '.',
        m < s.len() ==> !(digit(s[m]) || s[m] == '.'),
        splits_at(s, k),
    ensures
        k == m,
{
    if k < m {
        assert(s.subrange(k, s.len() as int)[0] == s[k]);
    } else if k > m {
        assert(s.subrange(0, k)[m] == s[m]);
    }
}

/// Decides whether the characters of `chars` from `start` up to `end` form a
/// numeric literal.
pub fn is_decimal_literal(chars: &Vec<char>, start: usize, end: usize) -> (r: bool)
    requires
        start <= end <= chars.len(),
    ensures
        r == decimal_literal(chars@.subrange(start as int, end as int)),
{
    let ghost s = chars@.subrange(start as int, end as int);
    let mut i: usize = start;
    let mut seen_digit: bool = false;
    let mut seen_point: bool = false;
    let mut second_point: bool = false;
    let ghost a_digit: int = 0;
    let ghost a_point: int = 0;
    let ghost b_point: int = 0;
    while i < end && (is_digit(chars[i]) || chars[i] == '.')
        invariant
            start <= i <= end <= chars.len(),
            s == chars@.subrange(start as int, end as int),
            forall|j: int| 0 <= j < i - start ==> digit(#[trigger] s[j]) || s[j] == '.',
            seen_digit ==> 0 <= a_digit < i - start && digit(s[a_digit]),
            !seen_digit ==> forall|j: int| 0 <= j < i - start ==> !digit(#[trigger] s[j]),
            seen_point ==> 0 <= a_point < i - start && s[a_point] == '.',
            !seen_point ==> forall|j: int| 0 <= j < i - start ==> #[trigger] s[j] != '.',
            second_point ==> seen_point && a_point < b_point < i - start && s[b_point] == '.',
            !second_point ==> forall|j: int|
                0 <= j < i - start && j != a_point ==> #[trigger] s[j] != '.',
        decreases end - i,
    {
        if chars[i] == '.' {
            if seen_point {
                if !second_point {
                    proof {
                        b_point = i - start;
                    }
                }
                second_point = true;
            } else {
                proof {
                    a_point = i - start;
                }
                seen_point = true;
            }
        } else {
            proof {
                a_digit = i - start;
            }
            seen_digit = true;
        }
        i += 1;
    }
    let ghost m: int = i - start;
    let ghost head = s.subrange(0, m);
    assert(m < s.len() ==> !(digit(s[m]) || s[m] == '.'));
    assert forall|k: int| splits_at(s, k) implies k == m by {
        lemma_split_point(s, m, k);
    }
    if !seen_digit || second_point {
        proof {
            if second_point {
                assert(head[a_point] == '.' && head[b_point] == '.');
            } else {
                assert forall|j: int| 0 <= j < head.len() implies !digit(#[trigger] head[j]) by {
                    assert(head[j] == s[j]);
                }
            }
            assert(!mantissa(head));
        }
        return false;
    }
    proof {
        assert(digit(head[a_digit]));
        assert forall|j: int| 0 <= j < head.len() implies digit(#[trigger] head[j]) || head[j]
            == '.' by {
            assert(head[j] == s[j]);
        }
        assert forall|j: int, l: int| 0 <= j < l < head.len() implies !(#[trigger] head[j] == '.'
            && #[trigger] head[l] == '.') by {
            assert(head[j] == s[j] && head[l] == s[l]);
        }
        assert(mantissa(head));
    }
    if i == end {
        assert(splits_at(s, m));
        return true;
    }
    let ghost tail = s.subrange(m, s.len() as int);
    assert(tail[0] == s[m]);
    if chars[i] != 'e' && chars[i] != 'E' {
        return false;
    }
    let marker = i;
    i += 1;
    if i == end {
        return false;
    }
    while i < end
        invariant
            start <= marker < i <= end <= chars.len(),
            m == marker - start,
            forall|k: int| splits_at(s, k) ==> k == m,
            s == chars@.subrange(start as int, end as int),
            tail == s.subrange(m, s.len() as int),
            forall|j: int| 1 <= j < i - marker ==> digit(#[trigger] tail[j]),
        decreases end - i,
    {
        if !is_digit(chars[i]) {
            assert(tail[i - marker] == chars@[i as int]);
            return false;
        }
        assert(tail[i - marker] == chars@[i as int]);
        i += 1;
    }
    assert(exponent(tail));
    assert(splits_at(s, m));
    true
}

} // verus!
