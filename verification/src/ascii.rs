//! Byte searches and decimal numbers in ASCII fields.

use vstd::prelude::*;

verus! {

/// `0`
pub const ZERO: u8 = 0x30;

/// `9`
pub const NINE: u8 = 0x39;

/// `.`
pub const DOT: u8 = 0x2e;

/// The first position at which `byte` occurs in `s`, or the length of `s` when it does not occur.
pub open spec fn first_index(s: Seq<u8>, byte: u8) -> int
    decreases s.len(),
{
    if s.len() == 0 || s[0] == byte {
        0
    } else {
        1 + first_index(s.drop_first(), byte)
    }
}

/// `first_index` is the one position before which `byte` does not occur and at which it does, if anywhere.
pub proof fn lemma_first_index(s: Seq<u8>, byte: u8)
    ensures
        0 <= first_index(s, byte) <= s.len(),
        forall|j: int| 0 <= j < first_index(s, byte) ==> s[j] != byte,
        first_index(s, byte) < s.len() ==> s[first_index(s, byte)] == byte,
    decreases s.len(),
{
    if s.len() > 0 && s[0] != byte {
        let tail = s.drop_first();
        lemma_first_index(tail, byte);
        assert forall|j: int| 0 <= j < first_index(s, byte) implies s[j] != byte by {
            if j > 0 {
                assert(tail[j - 1] == s[j]);
            }
        }
    }
}

/// The position of the first `byte` in `s`, or `s.len()` when there is none.
pub fn find_byte(s: &[u8], byte: u8) -> (at: usize)
    ensures
        at == first_index(s@, byte),
        at <= s@.len(),
        at < s@.len() ==> s@[at as int] == byte,
        forall|j: int| 0 <= j < at ==> s@[j] != byte,
{
    proof {
        lemma_first_index(s@, byte);
    }
    let mut at: usize = 0;
    while at < s.len() && s[at] != byte
        invariant
            at <= s@.len(),
            forall|j: int| 0 <= j < at ==> s@[j] != byte,
        decreases s@.len() - at,
    {
        at += 1;
    }
    at
}

/// Whether a byte is one of `0` to `9`.
pub open spec fn is_digit(b: u8) -> bool {
    ZERO <= b <= NINE
}

/// Whether every byte is a digit.
pub open spec fn all_digits(s: Seq<u8>) -> bool {
    forall|i: int| 0 <= i < s.len() ==> is_digit(#[trigger] s[i])
}

/// The number that a run of digits writes in base ten; an empty run writes zero.
pub open spec fn dec_value(s: Seq<u8>) -> int
    decreases s.len(),
{
    if s.len() == 0 {
        0
    } else {
        dec_value(s.drop_last()) * 10 + (s.last() - ZERO)
    }
}

/// Ten to the power `n`.
pub open spec fn pow10(n: nat) -> int
    decreases n,
{
    if n == 0 {
        1
    } else {
        10 * pow10((n - 1) as nat)
    }
}

/// The digits after a decimal point in units of `10^-places`: the first `places` digits, a shorter run padded
/// with zeros on the right, anything beyond ignored.
pub open spec fn scaled_fraction(s: Seq<u8>, places: nat) -> int {
    let kept = if s.len() < places {
        s.len()
    } else {
        places
    };
    dec_value(s.take(kept as int)) * pow10((places - kept) as nat)
}

/// Everything before the first point of a decimal field.
pub open spec fn integer_part(s: Seq<u8>) -> Seq<u8> {
    s.take(first_index(s, DOT))
}

/// Everything after the first point of a decimal field; empty when it has no point.
pub open spec fn fraction_part(s: Seq<u8>) -> Seq<u8> {
    if first_index(s, DOT) < s.len() {
        s.skip(first_index(s, DOT) + 1)
    } else {
        Seq::empty()
    }
}

/// Powers of ten are positive.
pub proof fn lemma_pow10_positive(n: nat)
    ensures
        0 < pow10(n),
    decreases n,
{
    if n > 0 {
        lemma_pow10_positive((n - 1) as nat);
    }
}

/// A run of digits is never worth less than what it starts with.
pub proof fn lemma_dec_value_grows(s: Seq<u8>, n: int)
    requires
        all_digits(s),
        0 <= n <= s.len(),
    ensures
        0 <= dec_value(s.take(n)) <= dec_value(s),
    decreases s.len(),
{
    if n == s.len() {
        assert(s.take(n) =~= s);
        lemma_dec_value_nonneg(s);
    } else {
        let t = s.drop_last();
        lemma_dec_value_grows(t, n);
        assert(t.take(n) =~= s.take(n));
        assert(is_digit(s[s.len() - 1]));
    }
}

proof fn lemma_dec_value_nonneg(s: Seq<u8>)
    requires
        all_digits(s),
    ensures
        0 <= dec_value(s),
    decreases s.len(),
{
    if s.len() > 0 {
        lemma_dec_value_nonneg(s.drop_last());
        assert(is_digit(s[s.len() - 1]));
    }
}

/// One more digit multiplies what was read so far by ten and adds the digit.
pub proof fn lemma_dec_value_step(s: Seq<u8>, n: int)
    requires
        0 <= n < s.len(),
    ensures
        dec_value(s.take(n + 1)) == dec_value(s.take(n)) * 10 + (s[n] - ZERO),
{
    assert(s.take(n + 1).drop_last() =~= s.take(n));
}

/// A run of `n` digits is worth less than ten to the power `n`.
pub proof fn lemma_dec_value_bound(s: Seq<u8>)
    requires
        all_digits(s),
    ensures
        0 <= dec_value(s) < pow10(s.len()),
    decreases s.len(),
{
    if s.len() > 0 {
        lemma_dec_value_bound(s.drop_last());
        assert(is_digit(s[s.len() - 1]));
    }
}

// ---------------------------------------------------------------------------------------------------------------
// Laws
// ---------------------------------------------------------------------------------------------------------------

/// The last `len` decimal digits of `n`, as ASCII bytes.
pub open spec fn digits(n: nat, len: nat) -> Seq<u8>
    decreases len,
{
    if len == 0 {
        Seq::empty()
    } else {
        digits(n / 10, (len - 1) as nat).push((48 + n % 10) as u8)
    }
}

/// `pow10` is the power of ten.
pub proof fn law_powers_of_ten(n: nat)
    ensures
        pow10(n) == vstd::arithmetic::power::pow(10, n),
    decreases n,
{
    reveal(vstd::arithmetic::power::pow);
    if n > 0 {
        law_powers_of_ten((n - 1) as nat);
    }
}

/// The digits of a number read back as that number, leading zeros or not.
pub proof fn law_digits_read_back(n: nat, len: nat)
    requires
        n < pow10(len),
    ensures
        digits(n, len).len() == len,
        all_digits(digits(n, len)),
        dec_value(digits(n, len)) == n,
    decreases len,
{
    if len > 0 {
        law_digits_read_back(n / 10, (len - 1) as nat);
        let init = digits(n / 10, (len - 1) as nat);
        let s = digits(n, len);
        assert(s.drop_last() =~= init);
        assert forall|i: int| 0 <= i < s.len() implies is_digit(#[trigger] s[i]) by {
            if i < init.len() {
                assert(is_digit(init[i]));
            }
        }
    }
}

/// A run of bytes counts as digits exactly where every byte lies between 48 and 57.
pub proof fn law_digits_are_ascii_digits(s: Seq<u8>)
    ensures
        all_digits(s) <==> (forall|i: int| 0 <= i < s.len() ==> 48 <= (#[trigger] s[i]) <= 57),
{
    if all_digits(s) {
        assert forall|i: int| 0 <= i < s.len() implies 48 <= (#[trigger] s[i]) <= 57 by {
            assert(is_digit(s[i]));
        }
    }
    if forall|i: int| 0 <= i < s.len() ==> 48 <= (#[trigger] s[i]) <= 57 {
        assert forall|i: int| 0 <= i < s.len() implies is_digit(#[trigger] s[i]) by {}
    }
}

/// A byte that does not occur before it is found exactly where it stands; one that does not occur at all is found at the
/// end.
pub proof fn law_first_index_finds(before: Seq<u8>, byte: u8, after: Seq<u8>)
    requires
        forall|i: int| 0 <= i < before.len() ==> (#[trigger] before[i]) != byte,
    ensures
        first_index(before + seq![byte] + after, byte) == before.len(),
        first_index(before, byte) == before.len(),
{
    let s = before + seq![byte] + after;
    lemma_first_index(s, byte);
    lemma_first_index(before, byte);
    let at = first_index(s, byte);
    assert(s[before.len() as int] == byte);
    if at < before.len() {
        assert(s[at] == before[at]);
    }
}

/// A decimal field splits at its point: what stands before it is the integer part, what stands behind it the fraction. A
/// field without a point is all integer part.
pub proof fn law_decimals_split_at_the_point(before: Seq<u8>, after: Seq<u8>)
    requires
        forall|i: int| 0 <= i < before.len() ==> (#[trigger] before[i]) != 0x2e,
    ensures
        integer_part(before + seq![0x2eu8] + after) == before,
        fraction_part(before + seq![0x2eu8] + after) == after,
        integer_part(before) == before,
        fraction_part(before) == Seq::<u8>::empty(),
{
    law_first_index_finds(before, 0x2e, after);
    let s = before + seq![0x2eu8] + after;
    assert(s.take(before.len() as int) =~= before);
    assert(s.skip(before.len() as int + 1) =~= after);
    assert(before.take(before.len() as int) =~= before);
}

/// A fraction is read to a fixed number of places: exactly that many digits are worth what they write, a missing one
/// counts as zero, and anything beyond is ignored.
pub proof fn law_fractions_have_fixed_places(s: Seq<u8>, more: Seq<u8>, places: nat)
    ensures
        s.len() == places ==> scaled_fraction(s, places) == dec_value(s),
        s.len() < places ==> scaled_fraction(s, places) == scaled_fraction(s.push(48), places),
        s.len() >= places ==> scaled_fraction(s + more, places) == scaled_fraction(s, places),
{
    if s.len() == places {
        assert(s.take(s.len() as int) =~= s);
        assert(pow10(0) == 1);
        let v = dec_value(s);
        assert(v * 1 == v) by (nonlinear_arith);
    }
    if s.len() < places {
        let t = s.push(48u8);
        assert(s.take(s.len() as int) =~= s);
        assert(t.take(t.len() as int) =~= t);
        assert(t.drop_last() =~= s);
        let rest = (places - t.len()) as nat;
        assert(pow10((places - s.len()) as nat) == 10 * pow10(rest));
        let v = dec_value(s);
        let p = pow10(rest);
        assert(v * (10 * p) == (v * 10 + 0) * p) by (nonlinear_arith);
    } else {
        assert((s + more).take(places as int) =~= s.take(places as int));
    }
}

} // verus!
