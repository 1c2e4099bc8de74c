//! Liveness line of the bring-up program.

use vstd::prelude::*;
use vstd::string::*;
use vstd::utf8::*;

use crate::text;

verus! {

/// The bytes of ASCII text.
pub open spec fn ascii_bytes(chars: Seq<char>) -> Seq<u8> {
    chars.map_values(|c: char| c as u8)
}

/// The line `nrf-spike: alive N`, with CR and LF.
pub open spec fn alive_line(n: u32) -> Seq<u8> {
    ascii_bytes("nrf-spike: alive "@ + text::dec_chars(n as nat) + seq!['\r', '\n'])
}

/// The digits of `n` as bytes, the lowest first.
spec fn digits_rev(n: nat) -> Seq<u8>
    decreases n,
{
    if n < 10 {
        seq![(48 + n) as u8]
    } else {
        seq![(48 + n % 10) as u8] + digits_rev(n / 10)
    }
}

proof fn lemma_digits_rev(n: nat)
    ensures
        digits_rev(n).len() == text::dec_chars(n).len(),
        forall|i: int|
            0 <= i < digits_rev(n).len() ==> #[trigger] digits_rev(n)[i] == text::dec_chars(n)[digits_rev(n).len() - 1
                - i] as u8,
    decreases n,
{
    if n >= 10 {
        lemma_digits_rev(n / 10);
        assert forall|i: int| 0 <= i < digits_rev(n).len() implies #[trigger] digits_rev(n)[i] == text::dec_chars(
            n,
        )[digits_rev(n).len() - 1 - i] as u8 by {
            if i > 0 {
                assert(digits_rev(n)[i] == digits_rev(n / 10)[i - 1]);
            }
        }
    }
}

/// Renders `nrf-spike: alive N` with CR and LF into the caller's buffer and returns how many bytes it takes. The buffer
/// behind the line stays as it is.
pub fn format_alive(buf: &mut [u8; 32], n: u32) -> (len: usize)
    ensures
        len <= 32,
        final(buf)@.take(len as int) == alive_line(n),
        final(buf)@.skip(len as int) == old(buf)@.skip(len as int),
{
    let prefix = "nrf-spike: alive ".as_bytes();
    proof {
        reveal_strlit("nrf-spike: alive ");
        is_ascii_chars_encode_utf8("nrf-spike: alive "@);
        text::lemma_u32_chars(n);
        lemma_digits_rev(n as nat);
    }
    let mut i: usize = 0;
    while i < prefix.len()
        invariant
            i <= prefix@.len() == 17,
            forall|j: int| 0 <= j < i ==> buf@[j] == prefix@[j],
            forall|j: int| i <= j < 32 ==> buf@[j] == old(buf)@[j],
        decreases prefix@.len() - i,
    {
        buf[i] = prefix[i];
        i += 1;
    }
    let mut digits: [u8; 10] = [0;10];
    let mut d: usize = 0;
    let mut v: u32 = n;
    let ghost rev = digits_rev(n as nat);
    proof {
        assert(rev.skip(0) =~= rev);
    }
    while v >= 10
        invariant
            rev == digits_rev(n as nat),
            0 < rev.len() <= 10,
            d < rev.len(),
            digits_rev(v as nat) == rev.skip(d as int),
            forall|j: int| 0 <= j < d ==> digits@[j] == rev[j],
        decreases v,
    {
        proof {
            assert(digits_rev(v as nat)[0] == (48 + v % 10) as u8);
            assert(rev.skip(d as int)[0] == rev[d as int]);
            assert(digits_rev((v / 10) as nat) =~= digits_rev(v as nat).drop_first());
            assert(rev.skip(d as int).drop_first() =~= rev.skip(d + 1));
            lemma_digits_rev((v / 10) as nat);
            lemma_nonempty((v / 10) as nat);
        }
        digits[d] = 48 + (v % 10) as u8;
        v = v / 10;
        d += 1;
    }
    proof {
        assert(rev.skip(d as int)[0] == rev[d as int]);
        assert(rev.len() == d + 1);
    }
    digits[d] = 48 + v as u8;
    d += 1;
    let ghost count = d as int;
    while d > 0
        invariant
            d <= count <= 10,
            count == rev.len(),
            i == 17 + count - d,
            prefix@.len() == 17,
            forall|j: int| 0 <= j < count ==> digits@[j] == rev[j],
            forall|j: int| 0 <= j < 17 ==> buf@[j] == prefix@[j],
            forall|j: int| 17 <= j < i ==> #[trigger] buf@[j] == rev[count - 1 - (j - 17)],
            forall|j: int| i <= j < 32 ==> buf@[j] == old(buf)@[j],
        decreases d,
    {
        d -= 1;
        buf[i] = digits[d];
        i += 1;
    }
    buf[i] = 13;
    buf[i + 1] = 10;
    i += 2;
    proof {
        let line = alive_line(n);
        let chars = "nrf-spike: alive "@ + text::dec_chars(n as nat) + seq!['\r', '\n'];
        assert(line.len() == i);
        assert forall|j: int| 0 <= j < i implies buf@[j] == line[j] by {
            assert(line[j] == chars[j] as u8);
            if j < 17 {
                assert(prefix@[j] == "nrf-spike: alive "@[j] as u8);
            } else if j < 17 + count {
                assert(rev[count - 1 - (j - 17)] == text::dec_chars(n as nat)[j - 17] as u8);
            }
        }
        assert(buf@.take(i as int) =~= line);
        assert(buf@.skip(i as int) =~= old(buf)@.skip(i as int));
    }
    i
}

proof fn lemma_nonempty(n: nat)
    ensures
        digits_rev(n).len() > 0,
{
}

// ---------------------------------------------------------------------------------------------------------------
// Laws
// ---------------------------------------------------------------------------------------------------------------

/// The line is `nrf-spike: alive `, a number that reads back as `n`, CR and LF.
pub proof fn law_alive_line_reads_back(n: u32)
    ensures
        ({
            let line = alive_line(n);
            let len = line.len() as int;
            &&& 20 <= len <= 29
            &&& forall|i: int| 0 <= i < 17 ==> #[trigger] line[i] == "nrf-spike: alive "@[i] as u8
            &&& crate::ascii::all_digits(line.subrange(17, len - 2))
            &&& crate::ascii::dec_value(line.subrange(17, len - 2)) == n
            &&& line[len - 2] == 13
            &&& line[len - 1] == 10
        }),
{
    reveal_strlit("nrf-spike: alive ");
    text::lemma_u32_chars(n);
    text::law_numbers_read_back(n as nat);
    let line = alive_line(n);
    let digits = text::bytes_of_text(text::dec_chars(n as nat));
    let chars = "nrf-spike: alive "@ + text::dec_chars(n as nat) + seq!['\r', '\n'];
    assert forall|i: int| 0 <= i < 17 implies #[trigger] line[i] == "nrf-spike: alive "@[i] as u8 by {
        assert(line[i] == chars[i] as u8);
    }
    assert(line.subrange(17, line.len() - 2) =~= digits);
    assert(line[line.len() - 2] == chars[line.len() - 2] as u8);
    assert(line[line.len() - 1] == chars[line.len() - 1] as u8);
}

} // verus!
