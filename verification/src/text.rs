//! Decimal numerals, for the default names of new bones and timelines, and
//! names trimmed of white space.
use vstd::prelude::*;
use vstd::string::*;
use crate::hex::{is_space_char, trim_end, trim_start};

verus! {

/// The decimal numeral of `n`, most significant digit first.
pub open spec fn decimal(n: nat) -> Seq<char>
    decreases n,
{
    if n < 10 {
        seq![((48 + n) as u8) as char]
    } else {
        decimal(n / 10).push(((48 + n % 10) as u8) as char)
    }
}

/// Appends one character to a string by std's `String::push`, which vstd
/// gives no specification. Trusted, not proved: the contract claims that the
/// string afterwards holds its old characters followed by `c`, as std's
/// documentation says.
#[verifier::external_body]
pub(crate) fn push_char(s: &mut String, c: char)
    ensures
        final(s)@ == old(s)@.push(c),
{
    s.push(c);
}

/// `prefix` followed by the decimal numeral of `n`.
pub fn numbered(prefix: &str, n: usize) -> (s: String)
    ensures
        s@ == prefix@ + decimal(n as nat),
{
    let mut digits: Vec<char> = Vec::new();
    let mut m: usize = n;
    // Digits from the least significant one.
    while m >= 10
        invariant
            decimal(n as nat) == decimal(m as nat) + digits@.reverse(),
        decreases m,
    {
        let d = ((48 + m % 10) as u8) as char;
        proof {
            assert(decimal(m as nat) == decimal((m / 10) as nat).push(d));
            assert(decimal((m / 10) as nat) + digits@.push(d).reverse() =~= decimal((m / 10) as nat).push(d) + digits@.reverse());
        }
        digits.push(d);
        m = m / 10;
    }
    let d = ((48 + m) as u8) as char;
    proof {
        assert(decimal(m as nat) == seq![d]);
        assert(decimal(n as nat) =~= digits@.push(d).reverse());
    }
    digits.push(d);
    let mut s = String::from_str(prefix);
    let mut i: usize = digits.len();
    while i > 0
        invariant
            i <= digits@.len(),
            s@ == prefix@ + digits@.subrange(i as int, digits@.len() as int).reverse(),
        decreases i,
    {
        i = i - 1;
        push_char(&mut s, digits[i]);
        assert(digits@.subrange(i as int, digits@.len() as int).reverse() =~= digits@.subrange(
            i + 1,
            digits@.len() as int,
        ).reverse().push(digits@[i as int]));
    }
    assert(digits@.subrange(0, digits@.len() as int) =~= digits@);
    s
}

/// `s` without leading and trailing white space (as `str::trim`).
pub fn trimmed(s: &str) -> (t: String)
    ensures
        t@ == trim_end(trim_start(s@)),
{
    let n = s.unicode_len();
    let ghost v = s@;
    let mut lo: usize = 0;
    assert(v.subrange(0, n as int) =~= v);
    while lo < n && is_space_char(s.get_char(lo))
        invariant
            v == s@,
            n == v.len(),
            lo <= n,
            trim_start(v) == trim_start(v.subrange(lo as int, n as int)),
        decreases n - lo,
    {
        assert(v.subrange(lo as int, n as int).drop_first() =~= v.subrange(lo + 1, n as int));
        lo = lo + 1;
    }
    assert(trim_start(v) == v.subrange(lo as int, n as int));
    let lo0 = lo;
    let mut hi: usize = n;
    while hi > lo && is_space_char(s.get_char(hi - 1))
        invariant
            v == s@,
            n == v.len(),
            lo0 == lo,
            lo <= hi <= n,
            trim_end(trim_start(v)) == trim_end(v.subrange(lo as int, hi as int)),
        decreases hi,
    {
        assert(v.subrange(lo as int, hi as int).drop_last() =~= v.subrange(lo as int, hi - 1));
        hi = hi - 1;
    }
    assert(trim_end(trim_start(v)) == v.subrange(lo as int, hi as int));
    let mut t = String::new();
    let mut i: usize = lo;
    while i < hi
        invariant
            v == s@,
            n == v.len(),
            lo <= i <= hi <= n,
            t@ == v.subrange(lo as int, i as int),
        decreases hi - i,
    {
        push_char(&mut t, s.get_char(i));
        i = i + 1;
        assert(t@ =~= v.subrange(lo as int, i as int));
    }
    t
}

} // verus!
