//! `sleep <seconds>`
use vstd::prelude::*;

use crate::text::chars_of;

verus! {

/// An ASCII decimal digit.
pub open spec fn is_digit(c: char) -> bool {
    '0' <= c && c <= '9'
}

/// The value of a digit.
pub open spec fn digit_value(c: char) -> int {
    (c as int) - ('0' as int)
}

/// The value of a sequence of decimal digits, most significant first.
pub open spec fn decimal_value(ds: Seq<char>) -> int
    decreases ds.len(),
{
    if ds.len() == 0 {
        0
    } else {
        decimal_value(ds.drop_last()) * 10 + digit_value(ds.last())
    }
}

/// `u64::from_str`: an optional `+`, then one or more decimal digits whose
/// value fits in 64 bits.
/// The digits of a number: the text after an optional leading `+`.
pub open spec fn digits_part(s: Seq<char>) -> Seq<char> {
    if s.len() > 0 && s[0] == '+' {
        s.skip(1)
    } else {
        s
    }
}

pub open spec fn parse_u64(s: Seq<char>) -> Option<u64> {
    let ds = digits_part(s);
    if ds.len() > 0 && (forall|i: int| 0 <= i < ds.len() ==> is_digit(#[trigger] ds[i]))
        && decimal_value(ds) <= u64::MAX {
        Some(decimal_value(ds) as u64)
    } else {
        None
    }
}

/// A number written in decimal digits is not negative.
pub proof fn lemma_decimal_nonneg(ds: Seq<char>)
    requires
        forall|i: int| 0 <= i < ds.len() ==> is_digit(#[trigger] ds[i]),
    ensures
        decimal_value(ds) >= 0,
    decreases ds.len(),
{
    if ds.len() > 0 {
        assert forall|i: int| 0 <= i < ds.len() - 1 implies is_digit(#[trigger] ds.drop_last()[i]) by {
            assert(ds.drop_last()[i] == ds[i]);
        }
        lemma_decimal_nonneg(ds.drop_last());
        assert(is_digit(ds[ds.len() - 1]));
    }
}

/// A prefix of a digit sequence has no larger value.
proof fn lemma_decimal_prefix_le(ds: Seq<char>, j: int)
    requires
        0 <= j <= ds.len(),
        forall|i: int| 0 <= i < ds.len() ==> is_digit(#[trigger] ds[i]),
    ensures
        decimal_value(ds.take(j)) <= decimal_value(ds),
    decreases ds.len(),
{
    if j < ds.len() {
        let d = ds.drop_last();
        assert forall|i: int| 0 <= i < d.len() implies is_digit(#[trigger] d[i]) by {
            assert(d[i] == ds[i]);
        }
        lemma_decimal_prefix_le(d, j);
        assert(d.take(j) =~= ds.take(j));
        lemma_decimal_nonneg(d);
        assert(is_digit(ds[ds.len() - 1]));
    } else {
        assert(ds.take(j) =~= ds);
    }
}

/// Reads a number of seconds the way `u64::from_str` does.
pub fn parse_seconds(arg: &str) -> (r: Option<u64>)
    ensures
        r == parse_u64(arg@),
{
    let s = chars_of(arg);
    let start: usize = if s.len() > 0 && s[0] == '+' {
        1
    } else {
        0
    };
    let ghost ds = s@.skip(start as int);
    assert(ds =~= digits_part(arg@));
    if start >= s.len() {
        return None;
    }
    let mut i: usize = start;
    while i < s.len()
        invariant
            start <= i <= s.len(),
            ds == s@.skip(start as int),
            ds == digits_part(arg@),
            forall|k: int| 0 <= k < i - start ==> is_digit(#[trigger] ds[k]),
        decreases s.len() - i,
    {
        if !('0' <= s[i] && s[i] <= '9') {
            assert(ds[i - start] == s@[i as int]);
            return None;
        }
        assert(ds[i - start] == s@[i as int]);
        i = i + 1;
    }
    let mut v: u64 = 0;
    let mut k: usize = start;
    assert(ds.take(0) =~= Seq::<char>::empty());
    while k < s.len()
        invariant
            start <= k <= s.len(),
            ds == s@.skip(start as int),
            ds == digits_part(arg@),
            ds.len() == s.len() - start,
            forall|j: int| 0 <= j < ds.len() ==> is_digit(#[trigger] ds[j]),
            v as int == decimal_value(ds.take(k - start)),
        decreases s.len() - k,
    {
        assert(ds[k - start] == s@[k as int]);
        assert(is_digit(ds[k - start]));
        let d = (s[k] as u32 - '0' as u32) as u64;
        assert(d as int == digit_value(ds[k - start]));
        assert(ds.take(k - start + 1).drop_last() =~= ds.take(k - start));
        proof {
            lemma_decimal_prefix_le(ds, k - start + 1);
        }
        match v.checked_mul(10) {
            Some(v10) => match v10.checked_add(d) {
                Some(nv) => {
                    v = nv;
                },
                None => {
                    proof {
                        let x = ds.take(k - start + 1);
                        assert(x.last() == ds[k - start]);
                        assert(decimal_value(x) == v as int * 10 + d as int);
                    }
                    return None;
                },
            },
            None => {
                proof {
                    lemma_decimal_nonneg(ds.take(k - start + 1).drop_last());
                    assert(is_digit(ds[k - start]));
                }
                return None;
            },
        }
        k = k + 1;
    }
    assert(ds.take(ds.len() as int) =~= ds);
    Some(v)
}

} // verus!
