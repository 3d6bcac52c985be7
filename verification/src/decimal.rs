//! Unsigned decimal numbers as they appear on the wire: ASCII digits with no
//! sign and no leading zero.

use vstd::prelude::*;

verus! {

/// The byte is one of the ASCII digits `0` to `9`.
pub open spec fn is_digit(b: u8) -> bool {
    48 <= b <= 57
}

/// The number that a run of ASCII digits denotes, most significant digit first.
pub open spec fn digits_value(s: Seq<u8>) -> nat
    decreases s.len(),
{
    if s.len() == 0 {
        0
    } else {
        digits_value(s.drop_last()) * 10 + (s.last() - 48) as nat
    }
}

/// The bytes are the canonical decimal form of a number: at least one digit,
/// digits only, and no leading zero unless the number is zero itself.
pub open spec fn is_decimal(s: Seq<u8>) -> bool {
    &&& s.len() > 0
    &&& forall|i: int| 0 <= i < s.len() ==> is_digit(#[trigger] s[i])
    &&& (s.len() > 1 ==> s[0] != 48)
}

/// The canonical decimal form of `n`.
pub open spec fn decimal(n: nat) -> Seq<u8>
    decreases n,
{
    if n < 10 {
        seq![(48 + n) as u8]
    } else {
        decimal(n / 10).push((48 + n % 10) as u8)
    }
}

/// What a numeric field of the protocol denotes: its value if the field is in
/// canonical decimal form and does not exceed `max`, nothing otherwise.
pub open spec fn field_value(s: Seq<u8>, max: nat) -> Option<nat> {
    if is_decimal(s) && digits_value(s) <= max {
        Some(digits_value(s))
    } else {
        None
    }
}

/// The decimal form of a number is canonical, is never empty, starts with a
/// zero only for zero, and denotes the number.
pub proof fn lemma_decimal_denotes(n: nat)
    ensures
        is_decimal(decimal(n)),
        digits_value(decimal(n)) == n,
        decimal(n)[0] == 48 <==> n == 0,
    decreases n,
{
    if n < 10 {
        let s = decimal(n);
        assert(s.drop_last() =~= Seq::<u8>::empty());
        assert(digits_value(s.drop_last()) == 0);
    } else {
        lemma_decimal_denotes(n / 10);
        let p = decimal(n / 10);
        let s = decimal(n);
        assert(s.drop_last() =~= p);
        assert(s[0] == p[0]);
        assert forall|i: int| 0 <= i < s.len() implies is_digit(#[trigger] s[i]) by {
            if i < p.len() {
                assert(s[i] == p[i]);
            }
        }
    }
}

/// A canonical decimal form is the decimal form of the number it denotes, so
/// no two forms denote the same number.
pub proof fn lemma_decimal_unique(s: Seq<u8>)
    requires
        is_decimal(s),
    ensures
        decimal(digits_value(s)) == s,
    decreases s.len(),
{
    let p = s.drop_last();
    let d = (s.last() - 48) as nat;
    assert(is_digit(s[s.len() - 1]));
    if s.len() == 1 {
        assert(p =~= Seq::<u8>::empty());
        assert(digits_value(p) == 0);
        assert(decimal(d) =~= s);
    } else {
        assert(is_decimal(p)) by {
            assert forall|i: int| 0 <= i < p.len() implies is_digit(#[trigger] p[i]) by {
                assert(p[i] == s[i]);
            }
            assert(p[0] == s[0]);
        }
        lemma_decimal_unique(p);
        lemma_decimal_denotes(digits_value(p));
        assert(digits_value(p) >= 1) by {
            if digits_value(p) == 0 {
                assert(decimal(0)[0] == 48);
                if p.len() == 1 {
                    assert(p[0] == s[0]);
                }
            }
        }
        let v = digits_value(s);
        assert(v == digits_value(p) * 10 + d);
        assert(v >= 10);
        assert(v / 10 == digits_value(p));
        assert(v % 10 == d);
        assert(decimal(v) =~= s);
    }
}

/// A prefix of a run of digits denotes no more than the whole run.
pub proof fn lemma_prefix_value(s: Seq<u8>, k: int)
    requires
        0 <= k <= s.len(),
        forall|i: int| 0 <= i < s.len() ==> is_digit(#[trigger] s[i]),
    ensures
        digits_value(s.take(k)) <= digits_value(s),
    decreases s.len() - k,
{
    if k == s.len() {
        assert(s.take(k) =~= s);
    } else {
        let p = s.drop_last();
        assert(s.take(k) =~= p.take(k));
        assert forall|i: int| 0 <= i < p.len() implies is_digit(#[trigger] p[i]) by {
            assert(p[i] == s[i]);
        }
        lemma_prefix_value(p, k);
        assert(is_digit(s[s.len() - 1]));
    }
}

/// Reads a numeric field. Succeeds exactly on the canonical decimal forms of
/// the numbers up to `u64::MAX`, and then returns the number.
pub fn parse_decimal(digits: &[u8]) -> (r: Option<u64>)
    ensures
        match r {
            Some(n) => field_value(digits@, u64::MAX as nat) == Some(n as nat),
            None => field_value(digits@, u64::MAX as nat).is_none(),
        },
{
    let n: usize = digits.len();
    if n == 0 {
        return None;
    }
    if n > 1 && digits[0] == 48 {
        return None;
    }
    let mut acc: u64 = 0;
    let mut i: usize = 0;
    while i < n
        invariant
            n == digits@.len(),
            i <= n,
            n > 1 ==> digits@[0] != 48,
            forall|j: int| 0 <= j < i ==> is_digit(#[trigger] digits@[j]),
            acc == digits_value(digits@.take(i as int)),
        decreases n - i,
    {
        let b: u8 = digits[i];
        if b < 48 || b > 57 {
            assert(!is_digit(digits@[i as int]));
            return None;
        }
        let next: u128 = acc as u128 * 10 + (b - 48) as u128;
        proof {
            let t = digits@.take(i as int + 1);
            assert(t.drop_last() =~= digits@.take(i as int));
            assert(t.last() == b);
            assert(digits_value(t) == next);
        }
        if next > u64::MAX as u128 {
            proof {
                if is_decimal(digits@) {
                    lemma_prefix_value(digits@, i as int + 1);
                }
            }
            return None;
        }
        acc = next as u64;
        i = i + 1;
    }
    proof {
        assert(digits@.take(n as int) =~= digits@);
    }
    Some(acc)
}

/// Appends the canonical decimal form of `n` to `out`.
pub fn push_decimal(out: &mut Vec<u8>, n: u64)
    ensures
        final(out)@ == old(out)@ + decimal(n as nat),
    decreases n,
{
    if n >= 10 {
        push_decimal(out, n / 10);
    }
    let d: u8 = (n % 10) as u8;
    out.push(48 + d);
    assert(out@ =~= old(out)@ + decimal(n as nat));
}

} // verus!
