//! Decimal digit strings: the value of a digit run (used when parsing a
//! `Content-Length` header) and the canonical rendering of a number (used
//! when emitting one).

use vstd::prelude::*;
use vstd::arithmetic::div_mod::lemma_fundamental_div_mod;

verus! {

pub open spec fn is_digit(b: u8) -> bool {
    48 <= b <= 57
}

pub open spec fn all_digits(s: Seq<u8>) -> bool {
    forall|k: int| 0 <= k < s.len() ==> is_digit(s[k])
}

/// Numeric value of a decimal digit string, most significant digit first.
pub open spec fn dec_value(s: Seq<u8>) -> int
    decreases s.len(),
{
    if s.len() == 0 {
        0
    } else {
        dec_value(s.drop_last()) * 10 + (s.last() - 48)
    }
}

/// A byte string is accepted as a `Content-Length` value exactly when it is a
/// nonempty run of decimal digits whose value fits in `usize`.
pub open spec fn valid_content_length(s: Seq<u8>) -> bool {
    s.len() > 0 && all_digits(s) && dec_value(s) <= usize::MAX as int
}

/// Shortest decimal rendering of a non-negative number.
pub open spec fn dec_digits(n: int) -> Seq<u8>
    decreases n,
{
    if n < 10 {
        seq![(48 + if n >= 0 { n } else { 0 }) as u8]
    } else {
        dec_digits(n / 10).push((48 + n % 10) as u8)
    }
}

pub proof fn lemma_dec_value_nonneg(s: Seq<u8>)
    requires
        all_digits(s),
    ensures
        dec_value(s) >= 0,
    decreases s.len(),
{
    if s.len() > 0 {
        assert(all_digits(s.drop_last()));
        lemma_dec_value_nonneg(s.drop_last());
    }
}

/// The value of a digit string bounds the value of each of its prefixes.
pub proof fn lemma_dec_value_prefix(s: Seq<u8>, i: int)
    requires
        all_digits(s),
        0 <= i <= s.len(),
    ensures
        dec_value(s.take(i)) <= dec_value(s),
    decreases s.len(),
{
    if i == s.len() {
        assert(s.take(i) =~= s);
    } else {
        let d = s.drop_last();
        assert(all_digits(d));
        assert(s.take(i) =~= d.take(i));
        lemma_dec_value_prefix(d, i);
        lemma_dec_value_nonneg(d);
    }
}

/// Rendering a number and reading the digits back gives the number.
pub proof fn lemma_dec_digits_value(n: int)
    requires
        n >= 0,
    ensures
        all_digits(dec_digits(n)),
        dec_digits(n).len() >= 1,
        dec_value(dec_digits(n)) == n,
    decreases n,
{
    if n < 10 {
        assert((48 + n) as u8 == 48 + n);
        assert(dec_digits(n) =~= seq![(48 + n) as u8]);
        assert(dec_digits(n).drop_last() =~= Seq::<u8>::empty());
        assert(dec_value(Seq::<u8>::empty()) == 0);
        assert(dec_digits(n).last() == 48 + n);
        assert(dec_value(dec_digits(n)) == n);
    } else {
        lemma_dec_digits_value(n / 10);
        lemma_fundamental_div_mod(n, 10);
        assert(0 <= n % 10 < 10);
        assert((48 + n % 10) as u8 == 48 + n % 10);
        assert(dec_digits(n).drop_last() =~= dec_digits(n / 10));
        assert(dec_digits(n).last() == (48 + n % 10) as u8);
        assert(dec_value(dec_digits(n)) == (n / 10) * 10 + n % 10);
    }
}

/// Reads the decimal value of `s[start..end]`, exactly when that region is a
/// nonempty digit run whose value fits in `usize`.
pub fn parse_dec(s: &[u8], start: usize, end: usize) -> (r: Option<usize>)
    requires
        start <= end <= s@.len(),
    ensures
        match r {
            Some(v) => valid_content_length(s@.subrange(start as int, end as int)) && v
                == dec_value(s@.subrange(start as int, end as int)),
            None => !valid_content_length(s@.subrange(start as int, end as int)),
        },
{
    let ghost region = s@.subrange(start as int, end as int);
    if start == end {
        return None;
    }
    let mut acc: usize = 0;
    let mut i: usize = start;
    while i < end
        invariant
            start <= i <= end <= s@.len(),
            region == s@.subrange(start as int, end as int),
            all_digits(region.take(i - start)),
            acc == dec_value(region.take(i - start)),
        decreases end - i,
    {
        let c = s[i];
        if c < 48 || c > 57 {
            assert(region[i - start] == c);
            assert(!all_digits(region));
            return None;
        }
        let d: usize = (c - 48) as usize;
        proof {
            assert(region.take(i + 1 - start).drop_last() =~= region.take(i - start));
            assert(region.take(i + 1 - start).last() == c);
        }
        if acc > (usize::MAX - d) / 10 {
            proof {
                assert(acc * 10 + d > usize::MAX) by (nonlinear_arith)
                    requires
                        acc > (usize::MAX - d) / 10,
                        0 <= d <= 9,
                {}
                if all_digits(region) {
                    lemma_dec_value_prefix(region, i + 1 - start);
                }
            }
            return None;
        }
        proof {
            assert(acc * 10 + d <= usize::MAX) by (nonlinear_arith)
                requires
                    acc <= (usize::MAX - d) / 10,
                    0 <= d <= 9,
            {}
        }
        acc = acc * 10 + d;
        i += 1;
    }
    proof {
        assert(region.take(end - start) =~= region);
    }
    Some(acc)
}

/// Renders `n` as its shortest decimal digit string.
pub fn dec_render(n: usize) -> (r: Vec<u8>)
    ensures
        r@ == dec_digits(n as int),
    decreases n,
{
    if n < 10 {
        let mut v: Vec<u8> = Vec::new();
        v.push(48 + n as u8);
        proof {
            assert(v@ =~= dec_digits(n as int));
        }
        v
    } else {
        let mut v = dec_render(n / 10);
        v.push(48 + (n % 10) as u8);
        proof {
            assert(v@ =~= dec_digits(n as int));
        }
        v
    }
}

} // verus!
