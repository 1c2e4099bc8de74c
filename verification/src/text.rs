//! Numbers as text, the way the panel shows them.

use vstd::prelude::*;
use vstd::utf8::*;

use crate::buffer::TextBuf;

verus! {

/// The character of a digit.
pub open spec fn digit_char(d: nat) -> char {
    (48 + d) as char
}

/// A number in base ten, without leading zeros.
pub open spec fn dec_chars(n: nat) -> Seq<char>
    decreases n,
{
    if n < 10 {
        seq![digit_char(n)]
    } else {
        dec_chars(n / 10).push(digit_char(n % 10))
    }
}

/// A number zero-padded to at least two digits (7 is `07`, 123 is `123`).
pub open spec fn pad2_chars(n: nat) -> Seq<char> {
    if n < 10 {
        seq!['0', digit_char(n)]
    } else {
        dec_chars(n)
    }
}

/// The magnitude of an integer.
pub open spec fn abs_nat(n: int) -> nat {
    if n >= 0 {
        n as nat
    } else {
        (-n) as nat
    }
}

/// A number with an explicit sign and its magnitude padded to two digits (-5 is `-05`, 42 is `+42`).
pub open spec fn sgn_chars(n: int) -> Seq<char> {
    seq![if n >= 0 {
        '+'
    } else {
        '-'
    }] + pad2_chars(abs_nat(n))
}

/// A number with a sign only where it is negative.
pub open spec fn int_chars(n: int) -> Seq<char> {
    if n >= 0 {
        dec_chars(n as nat)
    } else {
        seq!['-'] + dec_chars(abs_nat(n))
    }
}

/// A number right-aligned in at least `width` characters.
pub open spec fn right_chars(n: nat, width: nat) -> Seq<char> {
    let digits = dec_chars(n);
    if digits.len() < width {
        Seq::new((width - digits.len()) as nat, |i: int| ' ') + digits
    } else {
        digits
    }
}

/// A flag as `Y` or `N`.
pub open spec fn yn_chars(b: bool) -> Seq<char> {
    seq![if b {
        'Y'
    } else {
        'N'
    }]
}

/// Digits are ASCII, and a number below `10^k` takes at most `k` of them.
pub proof fn lemma_dec_chars(n: nat, k: nat)
    requires
        0 < k,
        n < crate::ascii::pow10(k),
    ensures
        is_ascii_chars(dec_chars(n)),
        0 < dec_chars(n).len() <= k,
    decreases n,
{
    crate::ascii::lemma_pow10_positive(k);
    if n >= 10 {
        assert(crate::ascii::pow10(1) == 10) by {
            reveal_with_fuel(crate::ascii::pow10, 3);
        }
        lemma_dec_chars(n / 10, (k - 1) as nat);
    }
}

/// Every `u32` takes at most ten digits.
pub proof fn lemma_u32_chars(n: u32)
    ensures
        is_ascii_chars(dec_chars(n as nat)),
        0 < dec_chars(n as nat).len() <= 10,
        is_ascii_chars(pad2_chars(n as nat)),
        2 <= pad2_chars(n as nat).len() <= 10,
{
    reveal_with_fuel(crate::ascii::pow10, 12);
    lemma_dec_chars(n as nat, 10);
    if n < 10 {
        assert(is_ascii_chars(pad2_chars(n as nat)));
    } else {
        assert(dec_chars(n as nat).len() == dec_chars((n / 10) as nat).len() + 1);
        lemma_dec_chars((n / 10) as nat, 10);
    }
}

/// Every `i16` with its sign takes at most six characters.
pub proof fn lemma_sgn_chars(n: i16)
    ensures
        is_ascii_chars(sgn_chars(n as int)),
        3 <= sgn_chars(n as int).len() <= 6,
{
    let m = abs_nat(n as int) as u32;
    lemma_u32_chars(m);
    reveal_with_fuel(crate::ascii::pow10, 7);
    lemma_dec_chars(m as nat, 5);
}

/// Every `i32` takes at most eleven characters.
pub proof fn lemma_int_chars(n: i32)
    ensures
        is_ascii_chars(int_chars(n as int)),
        0 < int_chars(n as int).len() <= 11,
{
    lemma_u32_chars(abs_nat(n as int) as u32);
}

/// A digit as text.
fn digit_str(d: u8) -> (s: &'static str)
    requires
        d < 10,
    ensures
        s@ == seq![digit_char(d as nat)],
{
    proof {
        reveal_strlit("0");
        reveal_strlit("1");
        reveal_strlit("2");
        reveal_strlit("3");
        reveal_strlit("4");
        reveal_strlit("5");
        reveal_strlit("6");
        reveal_strlit("7");
        reveal_strlit("8");
        reveal_strlit("9");
    }
    let s: &'static str = match d {
        0 => "0",
        1 => "1",
        2 => "2",
        3 => "3",
        4 => "4",
        5 => "5",
        6 => "6",
        7 => "7",
        8 => "8",
        _ => "9",
    };
    proof {
        assert(s@ =~= seq![digit_char(d as nat)]);
    }
    s
}

/// Renders a flag as `Y` or `N` for a compact status line.
pub fn yn(b: bool) -> (s: &'static str)
    ensures
        s@ == yn_chars(b),
{
    proof {
        reveal_strlit("Y");
        reveal_strlit("N");
    }
    let s: &'static str = if b {
        "Y"
    } else {
        "N"
    };
    proof {
        assert(s@ =~= yn_chars(b));
    }
    s
}

/// Appends a number in base ten.
pub fn put_dec(buf: &mut TextBuf, n: u32)
    requires
        is_ascii_chars(old(buf)@),
        old(buf)@.len() + dec_chars(n as nat).len() <= old(buf).spec_capacity(),
    ensures
        final(buf).spec_capacity() == old(buf).spec_capacity(),
        final(buf)@ == old(buf)@ + dec_chars(n as nat),
        is_ascii_chars(final(buf)@),
    decreases n,
{
    if n >= 10 {
        put_dec(buf, n / 10);
    }
    buf.put(digit_str((n % 10) as u8));
    proof {
        assert(buf@ =~= old(buf)@ + dec_chars(n as nat));
    }
}

/// Appends a number zero-padded to at least two digits (7 is `07`, 12 is `12`, 123 is `123`).
pub fn put_pad2(buf: &mut TextBuf, n: u32)
    requires
        is_ascii_chars(old(buf)@),
        old(buf)@.len() + pad2_chars(n as nat).len() <= old(buf).spec_capacity(),
    ensures
        final(buf).spec_capacity() == old(buf).spec_capacity(),
        final(buf)@ == old(buf)@ + pad2_chars(n as nat),
        is_ascii_chars(final(buf)@),
{
    if n < 10 {
        proof {
            reveal_strlit("0");
        }
        buf.put("0");
    }
    put_dec(buf, n);
    proof {
        assert(buf@ =~= old(buf)@ + pad2_chars(n as nat));
    }
}

/// Appends a signed number as an explicit sign plus the magnitude zero-padded to two digits (-5 is `-05`, 42 is
/// `+42`).
pub fn put_sgn(buf: &mut TextBuf, n: i16)
    requires
        is_ascii_chars(old(buf)@),
        old(buf)@.len() + sgn_chars(n as int).len() <= old(buf).spec_capacity(),
    ensures
        final(buf).spec_capacity() == old(buf).spec_capacity(),
        final(buf)@ == old(buf)@ + sgn_chars(n as int),
        is_ascii_chars(final(buf)@),
{
    proof {
        reveal_strlit("+");
        reveal_strlit("-");
    }
    if n >= 0 {
        buf.put("+");
        put_pad2(buf, n as u32);
    } else {
        buf.put("-");
        put_pad2(buf, (-(n as i32)) as u32);
    }
    proof {
        assert(buf@ =~= old(buf)@ + sgn_chars(n as int));
    }
}

/// Appends a signed number with a sign only where it is negative.
pub fn put_int(buf: &mut TextBuf, n: i32)
    requires
        is_ascii_chars(old(buf)@),
        old(buf)@.len() + int_chars(n as int).len() <= old(buf).spec_capacity(),
    ensures
        final(buf).spec_capacity() == old(buf).spec_capacity(),
        final(buf)@ == old(buf)@ + int_chars(n as int),
        is_ascii_chars(final(buf)@),
{
    proof {
        reveal_strlit("-");
    }
    if n >= 0 {
        put_dec(buf, n as u32);
    } else {
        buf.put("-");
        put_dec(buf, (-(n as i64)) as u32);
    }
    proof {
        assert(buf@ =~= old(buf)@ + int_chars(n as int));
    }
}

/// How many digits a number takes.
pub fn dec_len(n: u32) -> (len: usize)
    ensures
        len == dec_chars(n as nat).len(),
        1 <= len <= 10,
    decreases n,
{
    proof {
        lemma_u32_chars(n);
    }
    if n < 10 {
        1
    } else {
        dec_len(n / 10) + 1
    }
}

/// Appends a number right-aligned in at least `width` characters.
pub fn put_right(buf: &mut TextBuf, n: u32, width: usize)
    requires
        is_ascii_chars(old(buf)@),
        old(buf)@.len() + right_chars(n as nat, width as nat).len() <= old(buf).spec_capacity(),
    ensures
        final(buf).spec_capacity() == old(buf).spec_capacity(),
        final(buf)@ == old(buf)@ + right_chars(n as nat, width as nat),
        is_ascii_chars(final(buf)@),
{
    let digits = dec_len(n);
    let pad: usize = if digits < width {
        width - digits
    } else {
        0
    };
    let mut i: usize = 0;
    proof {
        reveal_strlit(" ");
        assert(old(buf)@ + Seq::new(0, |j: int| ' ') =~= old(buf)@);
    }
    while i < pad
        invariant
            i <= pad,
            pad + digits <= 10 || pad + digits <= width,
            old(buf)@.len() + pad <= old(buf).spec_capacity(),
            buf.spec_capacity() == old(buf).spec_capacity(),
            is_ascii_chars(buf@),
            is_ascii_chars(" "@),
            " "@ == seq![' '],
            buf@ == old(buf)@ + Seq::new(i as nat, |j: int| ' '),
        decreases pad - i,
    {
        buf.put(" ");
        i += 1;
        proof {
            assert(buf@ =~= old(buf)@ + Seq::new(i as nat, |j: int| ' '));
        }
    }
    put_dec(buf, n);
    proof {
        assert(buf@ =~= old(buf)@ + right_chars(n as nat, width as nat));
    }
}

// ---------------------------------------------------------------------------------------------------------------
// Laws
// ---------------------------------------------------------------------------------------------------------------

/// The bytes of ASCII text.
pub open spec fn bytes_of_text(chars: Seq<char>) -> Seq<u8> {
    chars.map_values(|c: char| c as u8)
}

/// A number as text is made of digits, reads back as that number, and has no leading zero.
pub proof fn law_numbers_read_back(n: nat)
    ensures
        dec_chars(n).len() > 0,
        crate::ascii::all_digits(bytes_of_text(dec_chars(n))),
        crate::ascii::dec_value(bytes_of_text(dec_chars(n))) == n,
        n >= 10 ==> dec_chars(n)[0] != '0',
        n > 0 ==> dec_chars(n)[0] != '0',
    decreases n,
{
    let s = bytes_of_text(dec_chars(n));
    if n >= 10 {
        law_numbers_read_back(n / 10);
        let init = bytes_of_text(dec_chars(n / 10));
        assert(s.drop_last() =~= init);
        assert forall|i: int| 0 <= i < s.len() implies crate::ascii::is_digit(#[trigger] s[i]) by {
            if i < init.len() {
                assert(crate::ascii::is_digit(init[i]));
            }
        }
    } else {
        assert(s.drop_last() =~= Seq::<u8>::empty());
        assert(s.last() == 48 + n);
        assert(crate::ascii::dec_value(s.drop_last()) == 0);
    }
}

/// Two numbers that look the same are the same.
pub proof fn law_numbers_look_different(a: nat, b: nat)
    ensures
        dec_chars(a) == dec_chars(b) <==> a == b,
        pad2_chars(a) == pad2_chars(b) <==> a == b,
{
    law_numbers_read_back(a);
    law_numbers_read_back(b);
    if pad2_chars(a) == pad2_chars(b) {
        if a < 10 {
            assert(pad2_chars(a)[0] == '0');
            assert(pad2_chars(a)[1] == digit_char(a));
            if b >= 10 {
                assert(pad2_chars(b)[0] != '0');
            } else {
                assert(pad2_chars(b)[1] == digit_char(b));
            }
        } else if b < 10 {
            assert(pad2_chars(b)[0] == '0');
        }
    }
}

/// Padding to two digits puts a zero before a single digit and leaves every longer number alone.
pub proof fn law_padding_is_a_leading_zero(n: nat)
    ensures
        n < 10 ==> pad2_chars(n) == seq!['0'] + dec_chars(n),
        n >= 10 ==> pad2_chars(n) == dec_chars(n),
        pad2_chars(n).len() >= 2,
{
    if n < 10 {
        assert(pad2_chars(n) =~= seq!['0'] + dec_chars(n));
    } else {
        law_numbers_read_back(n / 10);
    }
}

/// A signed number shows its sign, plus for zero, and then its magnitude; a plain integer shows a minus only where it is
/// below zero.
pub proof fn law_signs_are_shown(n: int, m: nat)
    requires
        m == n || m == -n,
    ensures
        n >= 0 ==> sgn_chars(n) == seq!['+'] + pad2_chars(m),
        n < 0 ==> sgn_chars(n) == seq!['-'] + pad2_chars(m),
        n >= 0 ==> int_chars(n) == dec_chars(m),
        n < 0 ==> int_chars(n) == seq!['-'] + dec_chars(m),
{
}

/// A right-aligned number ends with its digits, has spaces and nothing else before them, and is exactly as wide as asked
/// unless the digits alone are wider.
pub proof fn law_right_alignment_pads_with_spaces(n: nat, width: nat)
    ensures
        ({
            let s = right_chars(n, width);
            let digits = dec_chars(n);
            let pad = s.len() - digits.len();
            &&& s.len() >= digits.len()
            &&& s.len() >= width
            &&& pad > 0 ==> s.len() == width
            &&& s.skip(pad) == digits
            &&& forall|i: int| 0 <= i < pad ==> #[trigger] s[i] == ' '
        }),
{
    let s = right_chars(n, width);
    let digits = dec_chars(n);
    assert(s.skip(s.len() - digits.len()) =~= digits);
}

/// A flag shows as one letter, `Y` exactly where it is set.
pub proof fn law_flags_show_as_letters(b: bool)
    ensures
        yn_chars(b).len() == 1,
        yn_chars(b)[0] == 'Y' <==> b,
        yn_chars(b)[0] == 'N' <==> !b,
{
}

} // verus!
