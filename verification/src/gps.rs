//! NMEA 0183 ground-speed reader.
//!
//! [`GpsReader`] assembles lines from a receiver's byte stream; [`parse_line`] checks the trailing `*HH` checksum
//! and reads the speed-bearing sentences: `$..RMC` (field 7 is speed over ground in knots) and `$..VTG` (field 7
//! is speed over ground in km/h), plus `$..GGA` for fix quality and satellite count.
//! Ground speed is an integer number of centimeters per second, the unit of `Telemetry.speed_cm_s`. All
//! conversions are integer: decimal speeds are read to milli-units, then `1 knot = 51.4444 cm/s` and
//! `1 km/h = 27.7778 cm/s` are applied as exact rationals and rounded to nearest.

use vstd::prelude::*;
use vstd::slice::slice_subrange;

use crate::ascii;
use crate::ascii::{find_byte, DOT, NINE, ZERO};
use crate::buffer::ByteBuf;

verus! {

/// The longest NMEA sentence that is kept. The standard caps a sentence at 82 characters including `$`, CR and
/// LF; 96 leaves margin for the occasional non-conforming receiver without unbounded growth.
pub const MAX_SENTENCE_LEN: usize = 96;

/// How many bytes one read of the receiver may deliver.
pub const READ_CHUNK: usize = 64;

/// Upper plausibility bound on reported ground speed, in centimeters per second: 100 km/s, absurdly generous for
/// any vehicle, yet small enough that the km/h arithmetic of a display stays far under `u32::MAX`.
pub const MAX_SPEED_CM_S: u32 = 10_000_000;

/// `$`, which starts a sentence.
pub const DOLLAR: u8 = 0x24;

/// `!`, which starts an AIS-style sentence.
pub const BANG: u8 = 0x21;

/// `*`, which starts the checksum.
pub const STAR: u8 = 0x2a;

/// `,`, which separates fields.
pub const COMMA: u8 = 0x2c;

/// Carriage return.
pub const CR: u8 = 0x0d;

/// Line feed.
pub const LF: u8 = 0x0a;

/// GNSS fix quality as GGA reports it (0 = no fix, 1 = GPS, 2 = DGPS, ...).
#[derive(Copy, Clone, Debug, PartialEq, Eq, Structural)]
pub struct FixQuality {
    pub raw: u8,
}

impl FixQuality {
    /// True when the receiver reports any usable fix.
    pub fn has_fix(&self) -> (has: bool)
        ensures
            has == (self.raw != 0),
    {
        self.raw != 0
    }
}

/// A decoded speed/fix snapshot. `speed_cm_s` is ground speed in centimeters per second. `satellites` and `fix`
/// are the latest that a GGA sentence supplied, `None` while none has. `lat_e7`/`lon_e7` are the position in
/// degrees times 1e7 (+N/+E), `None` until a sentence carried one. They are reported as parsed: consumers must
/// gate on `fix` before trusting them, for 0,0 is a valid point.
#[derive(Copy, Clone, Debug, PartialEq, Eq)]
pub struct GpsFix {
    pub speed_cm_s: u32,
    pub satellites: Option<u8>,
    pub fix: Option<FixQuality>,
    pub lat_e7: Option<i32>,
    pub lon_e7: Option<i32>,
}

impl Default for GpsFix {
    /// Standing still, with nothing else known.
    fn default() -> (fix: Self)
        ensures
            fix.speed_cm_s == 0,
            fix.satellites is None,
            fix.fix is None,
            fix.lat_e7 is None,
            fix.lon_e7 is None,
    {
        GpsFix { speed_cm_s: 0, satellites: None, fix: None, lat_e7: None, lon_e7: None }
    }
}

/// What one NMEA line yielded.
#[derive(Copy, Clone, Debug, PartialEq, Eq)]
pub enum Parsed {
    /// Ground speed in cm/s, with the sentence's own position where it carried a valid one (RMC; never VTG).
    Speed { speed_cm_s: u32, lat_e7: Option<i32>, lon_e7: Option<i32> },
    /// Fix status from GGA: satellite count, fix quality, and the position where the fix is usable.
    Status { satellites: Option<u8>, fix: FixQuality, lat_e7: Option<i32>, lon_e7: Option<i32> },
    /// A line that yields nothing: corrupt, of another kind, or with the relevant field empty.
    Nothing,
}

// ---------------------------------------------------------------------------------------------------------------
// Numbers
// ---------------------------------------------------------------------------------------------------------------

/// The lesser of two integers.
pub open spec fn min_of(a: int, b: int) -> int {
    if a <= b {
        a
    } else {
        b
    }
}

/// Milli-knots in cm/s, rounded to nearest and held to the plausibility bound.
pub open spec fn knots_speed(milliknots: int) -> int {
    min_of((milliknots * 514_444 + 5_000_000) / 10_000_000, MAX_SPEED_CM_S as int)
}

/// Milli-km/h in cm/s, rounded to nearest and held to the plausibility bound.
pub open spec fn kmh_speed(milli_kmh: int) -> int {
    min_of((milli_kmh + 18) / 36, MAX_SPEED_CM_S as int)
}

/// Converts milli-knots to centimeters per second (1 knot = 51.4444 cm/s), rounded to nearest and clamped to
/// [`MAX_SPEED_CM_S`] so that a corrupt field cannot yield an overflow-prone value downstream.
pub fn milliknots_to_cm_s(milliknots: u32) -> (cm_s: u32)
    ensures
        cm_s == knots_speed(milliknots as int),
{
    let num: u64 = milliknots as u64 * 514_444 + 5_000_000;
    let cm_s: u32 = (num / 10_000_000) as u32;
    if cm_s <= MAX_SPEED_CM_S {
        cm_s
    } else {
        MAX_SPEED_CM_S
    }
}

/// Converts milli-km/h to centimeters per second (1 km/h = 27.7778 cm/s), rounded to nearest and clamped to
/// [`MAX_SPEED_CM_S`].
pub fn milli_kmh_to_cm_s(milli_kmh: u32) -> (cm_s: u32)
    ensures
        cm_s == kmh_speed(milli_kmh as int),
{
    let cm_s: u32 = ((milli_kmh as u64 + 18) / 36) as u32;
    if cm_s <= MAX_SPEED_CM_S {
        cm_s
    } else {
        MAX_SPEED_CM_S
    }
}

/// The value of a hexadecimal digit in either case.
pub open spec fn hex_value(b: u8) -> Option<u8> {
    if ZERO <= b <= NINE {
        Some((b - ZERO) as u8)
    } else if 0x61 <= b <= 0x66 {
        Some((b - 0x61 + 10) as u8)
    } else if 0x41 <= b <= 0x46 {
        Some((b - 0x41 + 10) as u8)
    } else {
        None
    }
}

/// Maps an ASCII hex digit to its value, or `None` where it is not one.
pub fn hex_nibble(b: u8) -> (r: Option<u8>)
    ensures
        r == hex_value(b),
        r matches Some(v) ==> v < 16,
{
    if ZERO <= b && b <= NINE {
        Some(b - ZERO)
    } else if 0x61 <= b && b <= 0x66 {
        Some(b - 0x61 + 10)
    } else if 0x41 <= b && b <= 0x46 {
        Some(b - 0x41 + 10)
    } else {
        None
    }
}

/// What an integer field writes, where it is a number that fits in a `u32`.
pub open spec fn uint_value(s: Seq<u8>) -> Option<u32> {
    if s.len() > 0 && ascii::all_digits(s) && ascii::dec_value(s) <= u32::MAX {
        Some(ascii::dec_value(s) as u32)
    } else {
        None
    }
}

/// Parses a plain unsigned integer ASCII field. Returns `None` on an empty field, on any non-digit byte and on a
/// number past `u32::MAX`.
pub fn parse_uint(s: &[u8]) -> (r: Option<u32>)
    ensures
        r == uint_value(s@),
{
    if s.is_empty() {
        return None;
    }
    let mut v: u32 = 0;
    let mut i: usize = 0;
    while i < s.len()
        invariant
            i <= s@.len(),
            ascii::all_digits(s@.take(i as int)),
            v == ascii::dec_value(s@.take(i as int)),
        decreases s@.len() - i,
    {
        let b = s[i];
        if b < ZERO || b > NINE {
            assert(!ascii::is_digit(s@[i as int]));
            return None;
        }
        proof {
            ascii::lemma_dec_value_step(s@, i as int);
            if ascii::all_digits(s@) {
                ascii::lemma_dec_value_grows(s@, i + 1);
            }
        }
        v = v.checked_mul(10)?.checked_add((b - ZERO) as u32)?;
        i += 1;
    }
    proof {
        assert(s@.take(i as int) =~= s@);
    }
    Some(v)
}

/// Folds a run of ASCII digits into an `i64` (an empty run is zero). Returns `None` on any non-digit byte and on
/// a number past `i64::MAX`.
pub fn fold_digits_i64(bytes: &[u8]) -> (r: Option<i64>)
    ensures
        r matches Some(v) ==> ascii::all_digits(bytes@) && v == ascii::dec_value(bytes@),
        r is None <==> !ascii::all_digits(bytes@) || ascii::dec_value(bytes@) > i64::MAX,
{
    let mut v: i64 = 0;
    let mut i: usize = 0;
    while i < bytes.len()
        invariant
            i <= bytes@.len(),
            ascii::all_digits(bytes@.take(i as int)),
            0 <= v,
            v == ascii::dec_value(bytes@.take(i as int)),
        decreases bytes@.len() - i,
    {
        let b = bytes[i];
        if b < ZERO || b > NINE {
            assert(!ascii::is_digit(bytes@[i as int]));
            return None;
        }
        proof {
            ascii::lemma_dec_value_step(bytes@, i as int);
            if ascii::all_digits(bytes@) {
                ascii::lemma_dec_value_grows(bytes@, i + 1);
            }
        }
        v = v.checked_mul(10)?.checked_add((b - ZERO) as i64)?;
        i += 1;
    }
    proof {
        assert(bytes@.take(i as int) =~= bytes@);
    }
    Some(v)
}

/// A decimal field: digits with at most one point among them, and at least one digit.
pub open spec fn is_decimal(s: Seq<u8>) -> bool {
    &&& ascii::all_digits(ascii::integer_part(s))
    &&& ascii::all_digits(ascii::fraction_part(s))
    &&& ascii::integer_part(s).len() + ascii::fraction_part(s).len() > 0
}

/// What a decimal field writes, in thousandths, digits past the third decimal ignored.
pub open spec fn milli_value(s: Seq<u8>) -> int {
    ascii::dec_value(ascii::integer_part(s)) * 1000 + ascii::scaled_fraction(ascii::fraction_part(s), 3)
}

/// What a decimal field yields: its thousandths, where it is one and they fit in a `u32`.
pub open spec fn decimal_milli(s: Seq<u8>) -> Option<u32> {
    if is_decimal(s) && milli_value(s) <= u32::MAX {
        Some(milli_value(s) as u32)
    } else {
        None
    }
}

/// Parses an unsigned decimal field like `12.34` into milli-units, integer-only. Reads at most three fractional
/// digits and ignores the rest. Returns `None` on any byte that is no digit (besides one point), on a field
/// without a digit, and on a value past `u32::MAX` milli-units.
pub fn parse_decimal_milli(s: &[u8]) -> (r: Option<u32>)
    ensures
        r == decimal_milli(s@),
{
    let ghost dot = ascii::first_index(s@, DOT);
    let ghost int_s = ascii::integer_part(s@);
    let ghost frac_s = ascii::fraction_part(s@);
    proof {
        ascii::lemma_first_index(s@, DOT);
    }
    let mut int_part: u32 = 0;
    let mut frac: u32 = 0;
    let mut frac_digits: u32 = 0;
    let mut seen_dot: bool = false;
    let mut seen_any: bool = false;
    let mut i: usize = 0;
    while i < s.len()
        invariant
            i <= s@.len(),
            dot == ascii::first_index(s@, DOT),
            0 <= dot <= s@.len(),
            dot < s@.len() ==> s@[dot] == DOT,
            forall|j: int| 0 <= j < dot ==> s@[j] != DOT,
            int_s == s@.take(dot),
            frac_s == ascii::fraction_part(s@),
            seen_dot == (dot < i),
            !seen_dot ==> {
                &&& ascii::all_digits(s@.take(i as int))
                &&& int_part == ascii::dec_value(s@.take(i as int))
                &&& seen_any == (i > 0)
                &&& frac == 0
                &&& frac_digits == 0
            },
            seen_dot ==> {
                &&& ascii::all_digits(int_s)
                &&& int_part == ascii::dec_value(int_s)
                &&& ascii::all_digits(frac_s.take(i - dot - 1))
                &&& frac_digits == min_of(3, i - dot - 1)
                &&& frac == ascii::dec_value(frac_s.take(frac_digits as int))
                &&& seen_any == (i > 1)
                &&& frac < ascii::pow10(frac_digits as nat)
            },
        decreases s@.len() - i,
    {
        let b = s[i];
        proof {
            reveal_with_fuel(ascii::pow10, 5);
            if dot < s@.len() {
                assert(frac_s =~= s@.skip(dot + 1));
            }
        }
        if ZERO <= b && b <= NINE {
            seen_any = true;
            if seen_dot {
                proof {
                    assert(frac_s[i - dot - 1] == b);
                    assert(frac_s.take(i - dot) =~= frac_s.take(i - dot - 1).push(b));
                }
                if frac_digits < 3 {
                    proof {
                        ascii::lemma_dec_value_step(frac_s, frac_digits as int);
                    }
                    frac = frac * 10 + (b - ZERO) as u32;
                    frac_digits += 1;
                }
            } else {
                proof {
                    assert(i < dot);
                    ascii::lemma_dec_value_step(s@, i as int);
                    assert(s@.take(i + 1) =~= s@.take(i as int).push(b));
                    if is_decimal(s@) {
                        assert(int_s.take(i + 1) =~= s@.take(i + 1));
                        ascii::lemma_dec_value_grows(int_s, i + 1);
                        lemma_fraction_nonneg(frac_s, 3);
                    }
                }
                int_part = int_part.checked_mul(10)?.checked_add((b - ZERO) as u32)?;
            }
        } else if b == DOT && !seen_dot {
            seen_dot = true;
            proof {
                assert(dot == i);
                assert(frac_s.take(0) =~= Seq::<u8>::empty());
            }
        } else {
            proof {
                assert(!ascii::is_digit(b));
                if seen_dot {
                    assert(frac_s[i - dot - 1] == b);
                } else {
                    assert(i < dot);
                    assert(int_s[i as int] == b);
                }
            }
            return None;
        }
        i += 1;
    }
    proof {
        if seen_dot {
            assert(frac_s.take(i - dot - 1) =~= frac_s);
        } else {
            assert(s@.take(i as int) =~= int_s);
            assert(frac_s.take(0) =~= Seq::<u8>::empty());
            assert(frac_s =~= Seq::<u8>::empty());
        }
    }
    if !seen_any {
        return None;
    }
    let ghost kept = frac_digits;
    let ghost raw = frac;
    proof {
        reveal_with_fuel(ascii::pow10, 5);
    }
    while frac_digits < 3
        invariant
            kept <= frac_digits <= 3,
            frac == raw * ascii::pow10((frac_digits - kept) as nat),
            frac < ascii::pow10(frac_digits as nat),
        decreases 3 - frac_digits,
    {
        proof {
            reveal_with_fuel(ascii::pow10, 5);
            assert(raw * ascii::pow10((frac_digits + 1 - kept) as nat) == 10 * (raw * ascii::pow10(
                (frac_digits - kept) as nat,
            ))) by (nonlinear_arith)
                requires
                    ascii::pow10((frac_digits + 1 - kept) as nat) == 10 * ascii::pow10((frac_digits - kept) as nat),
            ;
        }
        frac *= 10;
        frac_digits += 1;
    }
    proof {
        assert(frac == ascii::scaled_fraction(frac_s, 3));
    }
    int_part.checked_mul(1000)?.checked_add(frac)
}

proof fn lemma_fraction_nonneg(s: Seq<u8>, places: nat)
    requires
        ascii::all_digits(s),
    ensures
        0 <= ascii::scaled_fraction(s, places),
{
    let kept = min_of(s.len() as int, places as int);
    ascii::lemma_dec_value_bound(s.take(kept));
    ascii::lemma_pow10_positive((places - kept) as nat);
    assert(0 <= ascii::dec_value(s.take(kept)) * ascii::pow10((places - kept) as nat)) by (nonlinear_arith)
        requires
            0 <= ascii::dec_value(s.take(kept)),
            0 < ascii::pow10((places - kept) as nat),
    ;
}

// ---------------------------------------------------------------------------------------------------------------
// Coordinates
// ---------------------------------------------------------------------------------------------------------------

/// `N`
pub const NORTH: u8 = 0x4e;

/// `S`
pub const SOUTH: u8 = 0x53;

/// `E`
pub const EAST: u8 = 0x45;

/// `W`
pub const WEST: u8 = 0x57;

/// Whether a hemisphere letter keeps a magnitude positive, and the bound (in degrees times 1e7) that it sets: 90
/// degrees of latitude, 180 degrees of longitude.
pub open spec fn hemisphere(hemi: Seq<u8>) -> Option<(bool, int)> {
    if hemi.len() == 0 {
        None
    } else if hemi[0] == NORTH {
        Some((true, 900_000_000int))
    } else if hemi[0] == SOUTH {
        Some((false, 900_000_000int))
    } else if hemi[0] == EAST {
        Some((true, 1_800_000_000int))
    } else if hemi[0] == WEST {
        Some((false, 1_800_000_000int))
    } else {
        None
    }
}

/// A `ddmm.mmmm` or `dddmm.mmmm` field: at least four integer digits, the last two of them minutes under 60, and
/// nothing but digits after the point.
pub open spec fn is_degrees_minutes(value: Seq<u8>) -> bool {
    let int_s = ascii::integer_part(value);
    &&& int_s.len() >= 4
    &&& ascii::all_digits(int_s)
    &&& ascii::all_digits(ascii::fraction_part(value))
    &&& ascii::dec_value(int_s.skip(int_s.len() - 2)) < 60
}

/// The minutes of a `ddmm.mmmm` field in units of 1e-5 minute.
pub open spec fn minutes_e5(value: Seq<u8>) -> int {
    let int_s = ascii::integer_part(value);
    ascii::dec_value(int_s.skip(int_s.len() - 2)) * 100_000 + ascii::scaled_fraction(ascii::fraction_part(value), 5)
}

/// The magnitude of a `ddmm.mmmm` field in degrees times 1e7, rounded to nearest.
pub open spec fn degrees_e7(value: Seq<u8>) -> int {
    let int_s = ascii::integer_part(value);
    ascii::dec_value(int_s.take(int_s.len() - 2)) * 10_000_000 + (minutes_e5(value) * 10_000_000 + 3_000_000)
        / 6_000_000
}

/// What a coordinate field and its hemisphere field yield: degrees times 1e7, north and east positive. A latitude has
/// exactly two degree digits, so that a longitude in its place is none.
pub open spec fn coord_e7(value: Seq<u8>, hemi: Seq<u8>) -> Option<i32> {
    match hemisphere(hemi) {
        Some((positive, limit)) => if is_degrees_minutes(value) && degrees_e7(value) <= limit && (hemi[0] == NORTH
            || hemi[0] == SOUTH ==> ascii::integer_part(value).len() == 4) {
            Some((if positive { degrees_e7(value) } else { -degrees_e7(value) }) as i32)
        } else {
            None
        },
        None => None,
    }
}

/// Parses an NMEA latitude/longitude magnitude (`ddmm.mmmm` / `dddmm.mmmm`) plus its hemisphere field into
/// degrees times 1e7 (+N/+E). The split is positional: the two integer digits left of the point are whole
/// minutes, everything to their left is degrees, so one path handles 2-digit latitude and 3-digit longitude (and
/// rejects a longitude mis-fed as latitude, which has a digit too many).
/// Minutes keep five decimals, and the result is rounded to nearest. The hemisphere sets both the sign and the
/// valid range (latitude up to 90 degrees, longitude up to 180).
/// Returns `None` on any malformed field: a non-digit byte, fewer than four integer digits, minutes of 60 or
/// more, a latitude of other than four integer digits, an out-of-range result, or a missing or unknown hemisphere.
pub fn parse_coord_e7(value: &[u8], hemi: &[u8]) -> (r: Option<i32>)
    ensures
        r == coord_e7(value@, hemi@),
{
    let dot = find_byte(value, DOT);
    let int_part = slice_subrange(value, 0, dot);
    let frac_start: usize = if dot < value.len() {
        dot + 1
    } else {
        dot
    };
    let frac_part = slice_subrange(value, frac_start, value.len());
    proof {
        assert(int_part@ =~= ascii::integer_part(value@));
        assert(frac_part@ =~= ascii::fraction_part(value@));
    }
    if int_part.len() < 4 {
        return None;
    }
    let (deg_bytes, min_bytes) = int_part.split_at(int_part.len() - 2);
    proof {
        assert(deg_bytes@ =~= int_part@.take(int_part@.len() - 2));
        assert(min_bytes@ =~= int_part@.skip(int_part@.len() - 2));
        if ascii::all_digits(int_part@) {
            assert forall|i: int| 0 <= i < min_bytes@.len() implies ascii::is_digit(#[trigger] min_bytes@[i]) by {
                assert(ascii::is_digit(int_part@[i + int_part@.len() - 2]));
            }
            ascii::lemma_dec_value_bound(min_bytes@);
            ascii::lemma_dec_value_grows(int_part@, int_part@.len() - 2);
            reveal_with_fuel(ascii::pow10, 4);
            if ascii::all_digits(frac_part@) {
                lemma_fraction_nonneg(frac_part@, 5);
            }
        }
    }
    let deg = fold_digits_i64(deg_bytes)?;
    let min_whole = fold_digits_i64(min_bytes)?;
    if min_whole >= 60 {
        return None;
    }
    proof {
        assert forall|i: int| 0 <= i < int_part@.len() implies ascii::is_digit(#[trigger] int_part@[i]) by {
            if i < int_part@.len() - 2 {
                assert(ascii::is_digit(deg_bytes@[i]));
            } else {
                assert(ascii::is_digit(min_bytes@[i - (int_part@.len() - 2)]));
            }
        }
    }
    let mut frac: i64 = 0;
    let mut digits: usize = 0;
    let mut i: usize = 0;
    proof {
        assert(frac_part@.take(0) =~= Seq::<u8>::empty());
        reveal_with_fuel(ascii::pow10, 7);
    }
    while i < frac_part.len()
        invariant
            i <= frac_part@.len(),
            ascii::all_digits(frac_part@.take(i as int)),
            digits == min_of(5, i as int),
            0 <= frac < ascii::pow10(digits as nat),
            frac == ascii::dec_value(frac_part@.take(digits as int)),
            frac_part@ == ascii::fraction_part(value@),
        decreases frac_part@.len() - i,
    {
        let b = frac_part[i];
        if b < ZERO || b > NINE {
            assert(!ascii::is_digit(frac_part@[i as int]));
            return None;
        }
        proof {
            reveal_with_fuel(ascii::pow10, 7);
            assert(frac_part@.take(i + 1) =~= frac_part@.take(i as int).push(b));
        }
        if digits < 5 {
            proof {
                ascii::lemma_dec_value_step(frac_part@, digits as int);
            }
            frac = frac * 10 + (b - ZERO) as i64;
            digits += 1;
        }
        i += 1;
    }
    let ghost kept = digits;
    let ghost raw = frac;
    proof {
        assert(frac_part@.take(i as int) =~= frac_part@);
        assert(raw * 1 == raw);
    }
    while digits < 5
        invariant
            kept <= digits <= 5,
            frac == raw * ascii::pow10((digits - kept) as nat),
            0 <= frac < ascii::pow10(digits as nat),
        decreases 5 - digits,
    {
        proof {
            reveal_with_fuel(ascii::pow10, 7);
            assert(raw * ascii::pow10((digits + 1 - kept) as nat) == 10 * (raw * ascii::pow10(
                (digits - kept) as nat,
            ))) by (nonlinear_arith)
                requires
                    ascii::pow10((digits + 1 - kept) as nat) == 10 * ascii::pow10((digits - kept) as nat),
            ;
        }
        frac *= 10;
        digits += 1;
    }
    proof {
        reveal_with_fuel(ascii::pow10, 7);
        assert(frac == ascii::scaled_fraction(frac_part@, 5));
    }
    let min_scaled: i64 = min_whole * 100_000 + frac;
    let deg_e7 = deg.checked_mul(10_000_000)?.checked_add((min_scaled * 10_000_000 + 3_000_000) / 6_000_000)?;
    proof {
        assert(min_scaled == minutes_e5(value@));
        assert(deg_e7 == degrees_e7(value@));
    }
    if hemi.len() == 0 {
        return None;
    }
    let h = hemi[0];
    if (h == NORTH || h == SOUTH) && int_part.len() != 4 {
        return None;
    }
    let north_or_east = h == NORTH || h == EAST;
    let limit: i64 = if h == NORTH || h == SOUTH {
        900_000_000
    } else if h == EAST || h == WEST {
        1_800_000_000
    } else {
        return None;
    };
    if deg_e7 > limit {
        return None;
    }
    if north_or_east {
        Some(deg_e7 as i32)
    } else {
        Some(-(deg_e7 as i32))
    }
}

// ---------------------------------------------------------------------------------------------------------------
// Sentences
// ---------------------------------------------------------------------------------------------------------------

/// The exclusive-or of every byte: the NMEA checksum of a sentence body.
pub open spec fn xor_all(s: Seq<u8>) -> u8
    decreases s.len(),
{
    if s.len() == 0 {
        0
    } else {
        xor_all(s.drop_last()) ^ s.last()
    }
}

/// Where the sentence of a line starts: at its first `$` or `!`.
pub open spec fn sentence_start(line: Seq<u8>) -> int {
    min_of(ascii::first_index(line, DOLLAR), ascii::first_index(line, BANG))
}

/// Where a line without a checksum ends: at its first CR or LF.
pub open spec fn line_end(rest: Seq<u8>) -> int {
    min_of(ascii::first_index(rest, CR), ascii::first_index(rest, LF))
}

/// Whether the two bytes after the `*` at `star` are the hexadecimal checksum of everything before it.
pub open spec fn checksum_matches(rest: Seq<u8>, star: int) -> bool {
    &&& star + 2 < rest.len()
    &&& hex_value(rest[star + 1]) is Some
    &&& hex_value(rest[star + 2]) is Some
    &&& hex_value(rest[star + 1])->0 * 16 + hex_value(rest[star + 2])->0 == xor_all(rest.take(star))
}

/// The body of a line: what stands between its start and its `*`, where the checksum after the `*` is right; up
/// to the line's end where there is no `*`.
pub open spec fn sentence_body(line: Seq<u8>) -> Option<Seq<u8>> {
    if sentence_start(line) >= line.len() {
        None
    } else {
        let rest = line.skip(sentence_start(line) + 1);
        let star = ascii::first_index(rest, STAR);
        if star >= rest.len() {
            Some(rest.take(line_end(rest)))
        } else if checksum_matches(rest, star) {
            Some(rest.take(star))
        } else {
            None
        }
    }
}

/// Validates and strips the framing of one raw line. Returns the sentence body (after `$`, before `*`) when the
/// checksum is present and correct, or when there is none at all; `None` on a bad checksum or malformed framing,
/// so that a corrupted line is dropped rather than mis-parsed.
pub fn validate_and_body(line: &[u8]) -> (r: Option<&[u8]>)
    ensures
        r matches Some(body) ==> sentence_body(line@) == Some(body@),
        r is None ==> sentence_body(line@) is None,
{
    let dollar = find_byte(line, DOLLAR);
    let bang = find_byte(line, BANG);
    let start: usize = if dollar <= bang {
        dollar
    } else {
        bang
    };
    if start >= line.len() {
        return None;
    }
    let rest = slice_subrange(line, start + 1, line.len());
    let star = find_byte(rest, STAR);
    proof {
        assert(rest@ =~= line@.skip(sentence_start(line@) + 1));
    }
    if star < rest.len() {
        let body = slice_subrange(rest, 0, star);
        proof {
            assert(body@ =~= rest@.take(star as int));
        }
        if rest.len() - star < 3 {
            return None;
        }
        let hi = hex_nibble(rest[star + 1])?;
        let lo = hex_nibble(rest[star + 2])?;
        let expected: u8 = (hi << 4) | lo;
        proof {
            assert((hi << 4u8) | lo == hi * 16 + lo) by (bit_vector)
                requires
                    hi < 16,
                    lo < 16,
            ;
        }
        let mut actual: u8 = 0;
        let mut i: usize = 0;
        proof {
            assert(body@.take(0) =~= Seq::<u8>::empty());
        }
        while i < body.len()
            invariant
                i <= body@.len(),
                actual == xor_all(body@.take(i as int)),
            decreases body@.len() - i,
        {
            proof {
                assert(body@.take(i + 1).drop_last() =~= body@.take(i as int));
            }
            actual = actual ^ body[i];
            i += 1;
        }
        proof {
            assert(body@.take(i as int) =~= body@);
        }
        if actual != expected {
            return None;
        }
        Some(body)
    } else {
        let cr = find_byte(rest, CR);
        let lf = find_byte(rest, LF);
        let end: usize = if cr <= lf {
            cr
        } else {
            lf
        };
        let body = slice_subrange(rest, 0, end);
        proof {
            assert(body@ =~= rest@.take(end as int));
        }
        Some(body)
    }
}

/// The comma-separated field at `index`, counted from zero; `None` past the last one.
pub open spec fn nth_field(body: Seq<u8>, index: nat) -> Option<Seq<u8>>
    decreases index,
{
    let end = ascii::first_index(body, COMMA);
    if index == 0 {
        Some(body.take(end))
    } else if end >= body.len() {
        None
    } else {
        nth_field(body.skip(end + 1), (index - 1) as nat)
    }
}

/// A field that holds something: NMEA leaves a field empty where it has no data.
pub open spec fn field_value(body: Seq<u8>, index: nat) -> Option<Seq<u8>> {
    match nth_field(body, index) {
        Some(f) => if f.len() == 0 {
            None
        } else {
            Some(f)
        },
        None => None,
    }
}

/// The comma-separated field at `index` of a sentence body (field 0 is the address), or `None` where it is
/// missing or empty.
pub fn field(body: &[u8], index: usize) -> (r: Option<&[u8]>)
    ensures
        r matches Some(f) ==> field_value(body@, index as nat) == Some(f@),
        r is None ==> field_value(body@, index as nat) is None,
{
    let mut rest = body;
    let mut left: usize = index;
    while left > 0
        invariant
            left <= index,
            nth_field(rest@, left as nat) == nth_field(body@, index as nat),
        decreases left,
    {
        let end = find_byte(rest, COMMA);
        if end >= rest.len() {
            return None;
        }
        let next = slice_subrange(rest, end + 1, rest.len());
        proof {
            assert(next@ =~= rest@.skip(end + 1));
        }
        rest = next;
        left -= 1;
    }
    let end = find_byte(rest, COMMA);
    let f = slice_subrange(rest, 0, end);
    proof {
        assert(f@ =~= rest@.take(end as int));
    }
    if f.is_empty() {
        None
    } else {
        Some(f)
    }
}

/// What a value field and its hemisphere field yield; nothing where either is missing.
pub open spec fn field_coord(body: Seq<u8>, value_index: nat, hemi_index: nat) -> Option<i32> {
    match (field_value(body, value_index), field_value(body, hemi_index)) {
        (Some(value), Some(hemi)) => coord_e7(value, hemi),
        _ => None,
    }
}

/// Reads a coordinate from a value field and its hemisphere field, in degrees times 1e7, or `None` where either
/// is absent or malformed.
pub fn coord(body: &[u8], value_index: usize, hemi_index: usize) -> (r: Option<i32>)
    ensures
        r == field_coord(body@, value_index as nat, hemi_index as nat),
{
    match (field(body, value_index), field(body, hemi_index)) {
        (Some(value), Some(hemi)) => parse_coord_e7(value, hemi),
        _ => None,
    }
}

/// What a decimal field yields, in thousandths.
pub open spec fn field_milli(body: Seq<u8>, index: nat) -> Option<u32> {
    match field_value(body, index) {
        Some(f) => decimal_milli(f),
        None => None,
    }
}

/// What an integer field yields, held to 255.
pub open spec fn field_u8(body: Seq<u8>, index: nat) -> Option<u8> {
    match field_value(body, index) {
        Some(f) => match uint_value(f) {
            Some(v) => Some(min_of(v as int, 255) as u8),
            None => None,
        },
        None => None,
    }
}

fn milli_field(body: &[u8], index: usize) -> (r: Option<u32>)
    ensures
        r == field_milli(body@, index as nat),
{
    match field(body, index) {
        Some(f) => parse_decimal_milli(f),
        None => None,
    }
}

fn u8_field(body: &[u8], index: usize) -> (r: Option<u8>)
    ensures
        r == field_u8(body@, index as nat),
{
    match field(body, index) {
        Some(f) => match parse_uint(f) {
            Some(v) => if v <= 255 {
                Some(v as u8)
            } else {
                Some(255)
            },
            None => None,
        },
        None => None,
    }
}

/// The sentences that are read.
#[derive(Copy, Clone, Debug, PartialEq, Eq, Structural)]
pub enum Kind {
    Rmc,
    Vtg,
    Gga,
    Other,
}

/// The kind of a sentence: the last three letters of its address field, whatever talker stands before them.
pub open spec fn sentence_kind(body: Seq<u8>) -> Kind {
    let addr = body.take(ascii::first_index(body, COMMA));
    if addr.len() < 3 {
        Kind::Other
    } else {
        let tail = addr.skip(addr.len() - 3);
        if tail =~= seq![0x52u8, 0x4d, 0x43] {
            Kind::Rmc
        } else if tail =~= seq![0x56u8, 0x54, 0x47] {
            Kind::Vtg
        } else if tail =~= seq![0x47u8, 0x47, 0x41] {
            Kind::Gga
        } else {
            Kind::Other
        }
    }
}

fn kind_of(body: &[u8]) -> (kind: Kind)
    ensures
        kind == sentence_kind(body@),
{
    let end = find_byte(body, COMMA);
    if end < 3 {
        return Kind::Other;
    }
    let a = body[end - 3];
    let b = body[end - 2];
    let c = body[end - 1];
    proof {
        let addr = body@.take(end as int);
        let tail = addr.skip(addr.len() - 3);
        assert(tail =~= seq![a, b, c]);
    }
    if a == 0x52 && b == 0x4d && c == 0x43 {
        Kind::Rmc
    } else if a == 0x56 && b == 0x54 && c == 0x47 {
        Kind::Vtg
    } else if a == 0x47 && b == 0x47 && c == 0x41 {
        Kind::Gga
    } else {
        Kind::Other
    }
}

/// `A`, the status of an RMC sentence whose position is live.
pub const ACTIVE: u8 = 0x41;

/// What an RMC body yields: speed from knots, and the position only while the status is active.
pub open spec fn rmc_parsed(body: Seq<u8>) -> Parsed {
    match field_milli(body, 7) {
        Some(milliknots) => {
            let active = field_value(body, 2) == Some(seq![ACTIVE]);
            Parsed::Speed {
                speed_cm_s: knots_speed(milliknots as int) as u32,
                lat_e7: if active { field_coord(body, 3, 4) } else { None },
                lon_e7: if active { field_coord(body, 5, 6) } else { None },
            }
        },
        None => Parsed::Nothing,
    }
}

/// What a VTG body yields: speed from km/h, or from knots where that field yields none. Never a position.
pub open spec fn vtg_parsed(body: Seq<u8>) -> Parsed {
    match field_milli(body, 7) {
        Some(milli_kmh) => Parsed::Speed {
            speed_cm_s: kmh_speed(milli_kmh as int) as u32,
            lat_e7: None,
            lon_e7: None,
        },
        None => match field_milli(body, 5) {
            Some(milliknots) => Parsed::Speed {
                speed_cm_s: knots_speed(milliknots as int) as u32,
                lat_e7: None,
                lon_e7: None,
            },
            None => Parsed::Nothing,
        },
    }
}

/// What a GGA body yields: fix quality and satellites, each held to 255, and the position only while the fix is
/// usable.
pub open spec fn gga_parsed(body: Seq<u8>) -> Parsed {
    match field_u8(body, 6) {
        Some(raw) => Parsed::Status {
            satellites: field_u8(body, 7),
            fix: FixQuality { raw },
            lat_e7: if raw != 0 { field_coord(body, 2, 3) } else { None },
            lon_e7: if raw != 0 { field_coord(body, 4, 5) } else { None },
        },
        None => Parsed::Nothing,
    }
}

/// What a sentence body yields, by its kind.
pub open spec fn body_parsed(body: Seq<u8>) -> Parsed {
    match sentence_kind(body) {
        Kind::Rmc => rmc_parsed(body),
        Kind::Vtg => vtg_parsed(body),
        Kind::Gga => gga_parsed(body),
        Kind::Other => Parsed::Nothing,
    }
}

/// What a raw line yields.
pub open spec fn line_parsed(line: Seq<u8>) -> Parsed {
    match sentence_body(line) {
        Some(body) => body_parsed(body),
        None => Parsed::Nothing,
    }
}

/// Parses one NMEA line (raw bytes including `$` and any `*HH`): validates the checksum, identifies the sentence
/// by the last three letters of its address (RMC/VTG/GGA, whatever the talker), and extracts what it carries.
pub fn parse_line(line: &[u8]) -> (parsed: Parsed)
    ensures
        parsed == line_parsed(line@),
{
    let body = match validate_and_body(line) {
        Some(body) => body,
        None => {
            return Parsed::Nothing;
        },
    };
    match kind_of(body) {
        Kind::Rmc => {
            let milliknots = match milli_field(body, 7) {
                Some(milliknots) => milliknots,
                None => {
                    return Parsed::Nothing;
                },
            };
            let active = match field(body, 2) {
                Some(status) => {
                    let active = status.len() == 1 && status[0] == ACTIVE;
                    proof {
                        assert(seq![ACTIVE][0] == ACTIVE);
                        if active {
                            assert(status@ =~= seq![ACTIVE]);
                        }
                    }
                    active
                },
                None => false,
            };
            let (lat_e7, lon_e7) = if active {
                (coord(body, 3, 4), coord(body, 5, 6))
            } else {
                (None, None)
            };
            Parsed::Speed { speed_cm_s: milliknots_to_cm_s(milliknots), lat_e7, lon_e7 }
        },
        Kind::Vtg => match milli_field(body, 7) {
            Some(milli_kmh) => Parsed::Speed {
                speed_cm_s: milli_kmh_to_cm_s(milli_kmh),
                lat_e7: None,
                lon_e7: None,
            },
            None => match milli_field(body, 5) {
                Some(milliknots) => Parsed::Speed {
                    speed_cm_s: milliknots_to_cm_s(milliknots),
                    lat_e7: None,
                    lon_e7: None,
                },
                None => Parsed::Nothing,
            },
        },
        Kind::Gga => {
            let fix = match u8_field(body, 6) {
                Some(raw) => FixQuality { raw },
                None => {
                    return Parsed::Nothing;
                },
            };
            let satellites = u8_field(body, 7);
            let (lat_e7, lon_e7) = if fix.has_fix() {
                (coord(body, 2, 3), coord(body, 4, 5))
            } else {
                (None, None)
            };
            Parsed::Status { satellites, fix, lat_e7, lon_e7 }
        },
        Kind::Other => Parsed::Nothing,
    }
}

// ---------------------------------------------------------------------------------------------------------------
// The byte stream
// ---------------------------------------------------------------------------------------------------------------

/// What a reader keeps between bytes: the line so far, whether that line has outgrown the buffer, and the latest
/// fix status and position that GGA supplied.
#[verifier::ext_equal]
pub struct Assembly {
    pub line: Seq<u8>,
    pub overlong: bool,
    pub satellites: Option<u8>,
    pub fix: Option<FixQuality>,
    pub lat_e7: Option<i32>,
    pub lon_e7: Option<i32>,
}

/// Whether a byte ends a line.
pub open spec fn is_terminator(b: u8) -> bool {
    b == CR || b == LF
}

/// The first choice where there is one, else the second.
pub open spec fn or_else(a: Option<i32>, b: Option<i32>) -> Option<i32> {
    if a is Some {
        a
    } else {
        b
    }
}

impl Assembly {
    /// Nothing read yet.
    pub open spec fn initial() -> Assembly {
        Assembly { line: Seq::empty(), overlong: false, satellites: None, fix: None, lat_e7: None, lon_e7: None }
    }

    /// The assembly at the start of a line.
    pub open spec fn at_line_start(self) -> Assembly {
        Assembly { line: Seq::empty(), overlong: false, ..self }
    }

    /// What a completed line does: GGA replaces the cached status and position, a speed sentence yields a fix. The
    /// fix takes the sentence's own coordinates where it has them and the cached ones where it has not.
    pub open spec fn take_line(self, parsed: Parsed) -> (Assembly, Option<GpsFix>) {
        let next = self.at_line_start();
        match parsed {
            Parsed::Speed { speed_cm_s, lat_e7, lon_e7 } => (
                next,
                Some(
                    GpsFix {
                        speed_cm_s,
                        satellites: self.satellites,
                        fix: self.fix,
                        lat_e7: or_else(lat_e7, self.lat_e7),
                        lon_e7: or_else(lon_e7, self.lon_e7),
                    },
                ),
            ),
            Parsed::Status { satellites, fix, lat_e7, lon_e7 } => (
                Assembly { satellites, fix: Some(fix), lat_e7, lon_e7, ..next },
                None,
            ),
            Parsed::Nothing => (next, None),
        }
    }

    /// What one byte does. A line that outgrows the buffer is dropped whole, up to its terminator.
    pub open spec fn step(self, b: u8) -> (Assembly, Option<GpsFix>) {
        if is_terminator(b) {
            if self.overlong || self.line.len() == 0 {
                (self.at_line_start(), None)
            } else {
                self.take_line(line_parsed(self.line))
            }
        } else if self.overlong {
            (self, None)
        } else if self.line.len() < MAX_SENTENCE_LEN {
            (Assembly { line: self.line.push(b), ..self }, None)
        } else {
            (Assembly { line: Seq::empty(), overlong: true, ..self }, None)
        }
    }

    /// Reads up to and including the byte that completes a fix, or all of `bytes` when none does: what is kept,
    /// the fix, and the bytes not yet read.
    pub open spec fn run(self, bytes: Seq<u8>) -> (Assembly, Option<GpsFix>, Seq<u8>)
        decreases bytes.len(),
    {
        if bytes.len() == 0 {
            (self, None, bytes)
        } else {
            let (next, fix) = self.step(bytes[0]);
            if fix is Some {
                (next, fix, bytes.drop_first())
            } else {
                next.run(bytes.drop_first())
            }
        }
    }

    /// What is kept after reading all of `bytes`.
    pub open spec fn after(self, bytes: Seq<u8>) -> Assembly
        decreases bytes.len(),
    {
        if bytes.len() == 0 {
            self
        } else {
            self.step(bytes[0]).0.after(bytes.drop_first())
        }
    }

    /// Every fix that `bytes` complete, in order.
    pub open spec fn fixes(self, bytes: Seq<u8>) -> Seq<GpsFix>
        decreases bytes.len(),
    {
        if bytes.len() == 0 {
            Seq::empty()
        } else {
            let (next, fix) = self.step(bytes[0]);
            let rest = next.fixes(bytes.drop_first());
            match fix {
                Some(f) => seq![f] + rest,
                None => rest,
            }
        }
    }
}

/// NMEA reader. Assembles lines into a fixed buffer and parses them; [`next_fix`](GpsReader::next_fix) yields once
/// a speed sentence (RMC or VTG) completes, carrying the latest satellite/fix info seen from interleaved GGA
/// sentences. The bytes come in chunks through [`refill`](GpsReader::refill).
pub struct GpsReader {
    line: ByteBuf,
    overlong: bool,
    chunk: [u8; 64],
    chunk_len: usize,
    chunk_pos: usize,
    last_sats: Option<u8>,
    last_fix: Option<FixQuality>,
    last_lat_e7: Option<i32>,
    last_lon_e7: Option<i32>,
}

impl GpsReader {
    /// The line buffer has its capacity and the read position stays within the chunk.
    pub closed spec fn wf(&self) -> bool {
        &&& self.line.spec_capacity() == MAX_SENTENCE_LEN
        &&& self.line@.len() <= MAX_SENTENCE_LEN
        &&& self.chunk_pos <= self.chunk_len <= READ_CHUNK
    }

    /// What is kept between bytes.
    pub closed spec fn assembly(&self) -> Assembly {
        Assembly {
            line: self.line@,
            overlong: self.overlong,
            satellites: self.last_sats,
            fix: self.last_fix,
            lat_e7: self.last_lat_e7,
            lon_e7: self.last_lon_e7,
        }
    }

    /// The bytes of the current chunk that have not been read yet.
    pub closed spec fn pending(&self) -> Seq<u8> {
        self.chunk@.subrange(self.chunk_pos as int, self.chunk_len as int)
    }

    /// A reader at the start of a stream.
    pub fn new() -> (reader: Self)
        ensures
            reader.wf(),
            reader.assembly() == Assembly::initial(),
            reader.pending() == Seq::<u8>::empty(),
    {
        let reader = GpsReader {
            line: ByteBuf::new::<MAX_SENTENCE_LEN>(),
            overlong: false,
            chunk: [0;64],
            chunk_len: 0,
            chunk_pos: 0,
            last_sats: None,
            last_fix: None,
            last_lat_e7: None,
            last_lon_e7: None,
        };
        proof {
            assert(reader.pending() =~= Seq::<u8>::empty());
        }
        reader
    }

    /// Whether the current chunk is used up, so that the next one may come in.
    pub fn needs_refill(&self) -> (needs: bool)
        requires
            self.wf(),
        ensures
            needs == (self.pending().len() == 0),
    {
        self.chunk_pos >= self.chunk_len
    }

    /// Takes in what one read of the receiver delivered. The previous chunk has to be used up first: its tail holds
    /// the start of the next sentence.
    pub fn refill(&mut self, bytes: &[u8])
        requires
            old(self).wf(),
            old(self).pending().len() == 0,
            bytes@.len() <= READ_CHUNK,
        ensures
            final(self).wf(),
            final(self).assembly() == old(self).assembly(),
            final(self).pending() == bytes@,
    {
        let mut i: usize = 0;
        while i < bytes.len()
            invariant
                i <= bytes@.len() <= READ_CHUNK,
                self.line == old(self).line,
                self.overlong == old(self).overlong,
                self.last_sats == old(self).last_sats,
                self.last_fix == old(self).last_fix,
                self.last_lat_e7 == old(self).last_lat_e7,
                self.last_lon_e7 == old(self).last_lon_e7,
                forall|j: int| 0 <= j < i ==> self.chunk@[j] == bytes@[j],
            decreases bytes@.len() - i,
        {
            self.chunk[i] = bytes[i];
            i += 1;
        }
        self.chunk_len = bytes.len();
        self.chunk_pos = 0;
        proof {
            assert(self.pending() =~= bytes@);
        }
    }

    /// Reads the buffered bytes until a speed sentence (RMC or VTG) completes, and returns a [`GpsFix`] with its
    /// ground speed plus the most recent satellite/fix status; the bytes after it stay buffered for the next call.
    /// GGA sentences seen along the way update the cached status but do not themselves return. `None` means that
    /// the chunk is used up and the next one is due.
    pub fn next_fix(&mut self) -> (fix: Option<GpsFix>)
        requires
            old(self).wf(),
        ensures
            final(self).wf(),
            old(self).assembly().run(old(self).pending()) == (final(self).assembly(), fix, final(self).pending()),
            fix is None ==> final(self).pending().len() == 0,
    {
        while self.chunk_pos < self.chunk_len
            invariant
                self.wf(),
                old(self).assembly().run(old(self).pending()) == self.assembly().run(self.pending()),
            decreases self.chunk_len - self.chunk_pos,
        {
            let ghost pending = self.pending();
            let b = self.chunk[self.chunk_pos];
            self.chunk_pos += 1;
            proof {
                assert(pending[0] == b);
                assert(self.pending() =~= pending.drop_first());
            }
            if let Some(fix) = self.take_byte(b) {
                return Some(fix);
            }
        }
        None
    }

    fn take_byte(&mut self, b: u8) -> (fix: Option<GpsFix>)
        requires
            old(self).wf(),
        ensures
            final(self).wf(),
            old(self).assembly().step(b) == (final(self).assembly(), fix),
            final(self).pending() == old(self).pending(),
            final(self).chunk_len == old(self).chunk_len,
            final(self).chunk_pos == old(self).chunk_pos,
    {
        if b == CR || b == LF {
            if self.overlong || self.line.is_empty() {
                self.overlong = false;
                self.line.clear();
                return None;
            }
            let parsed = parse_line(self.line.as_slice());
            self.line.clear();
            match parsed {
                Parsed::Speed { speed_cm_s, lat_e7, lon_e7 } => {
                    let lat_e7 = if lat_e7.is_some() {
                        lat_e7
                    } else {
                        self.last_lat_e7
                    };
                    let lon_e7 = if lon_e7.is_some() {
                        lon_e7
                    } else {
                        self.last_lon_e7
                    };
                    Some(
                        GpsFix { speed_cm_s, satellites: self.last_sats, fix: self.last_fix, lat_e7, lon_e7 },
                    )
                },
                Parsed::Status { satellites, fix, lat_e7, lon_e7 } => {
                    self.last_sats = satellites;
                    self.last_fix = Some(fix);
                    self.last_lat_e7 = lat_e7;
                    self.last_lon_e7 = lon_e7;
                    None
                },
                Parsed::Nothing => None,
            }
        } else {
            if !self.overlong && self.line.push(b).is_err() {
                self.line.clear();
                self.overlong = true;
            }
            None
        }
    }
}

// ---------------------------------------------------------------------------------------------------------------
// Laws
// ---------------------------------------------------------------------------------------------------------------

/// Where reads split the stream does not matter: the fixes of two chunks are those of the bytes in one piece.
pub proof fn law_chunks_do_not_matter(a: Assembly, x: Seq<u8>, y: Seq<u8>)
    ensures
        a.after(x + y) == a.after(x).after(y),
        a.fixes(x + y) == a.fixes(x) + a.after(x).fixes(y),
    decreases x.len(),
{
    if x.len() == 0 {
        assert(x + y =~= y);
        assert(a.fixes(x) + a.after(x).fixes(y) =~= a.fixes(y));
    } else {
        assert((x + y).drop_first() =~= x.drop_first() + y);
        let (next, fix) = a.step(x[0]);
        law_chunks_do_not_matter(next, x.drop_first(), y);
        assert(a.fixes(x + y) =~= a.fixes(x) + a.after(x).fixes(y));
    }
}

/// Stopping at a fix loses nothing: the bytes left over yield the remaining fixes of the stream, and the same is
/// kept in the end. Without a fix every byte has been read.
pub proof fn law_stopping_at_a_fix_loses_nothing(a: Assembly, bytes: Seq<u8>)
    ensures
        ({
            let (next, fix, rest) = a.run(bytes);
            &&& a.after(bytes) == next.after(rest)
            &&& fix matches Some(f) ==> a.fixes(bytes) == seq![f] + next.fixes(rest)
            &&& fix is None ==> rest.len() == 0 && a.fixes(bytes).len() == 0
        }),
    decreases bytes.len(),
{
    if bytes.len() > 0 {
        let (next, fix) = a.step(bytes[0]);
        if fix is None {
            law_stopping_at_a_fix_loses_nothing(next, bytes.drop_first());
        }
    }
}

/// The bytes of a line that fits are kept as they are until its terminator.
proof fn lemma_line_accumulates(a: Assembly, line: Seq<u8>)
    requires
        !a.overlong,
        a.line.len() + line.len() <= MAX_SENTENCE_LEN,
        forall|i: int| 0 <= i < line.len() ==> !is_terminator(#[trigger] line[i]),
    ensures
        a.after(line) == (Assembly { line: a.line + line, ..a }),
        a.fixes(line).len() == 0,
    decreases line.len(),
{
    if line.len() == 0 {
        assert(a.line + line =~= a.line);
    } else {
        let next = a.step(line[0]).0;
        let rest = line.drop_first();
        assert forall|i: int| 0 <= i < rest.len() implies !is_terminator(#[trigger] rest[i]) by {
            assert(!is_terminator(line[i + 1]));
        }
        lemma_line_accumulates(next, rest);
        assert(next.line + rest =~= a.line + line);
    }
}

/// A terminated line of at most [`MAX_SENTENCE_LEN`] bytes does exactly what parsing it says.
pub proof fn law_terminated_line_is_parsed(a: Assembly, line: Seq<u8>, terminator: u8)
    requires
        a.line.len() == 0,
        !a.overlong,
        0 < line.len() <= MAX_SENTENCE_LEN,
        forall|i: int| 0 <= i < line.len() ==> !is_terminator(#[trigger] line[i]),
        is_terminator(terminator),
    ensures
        ({
            let (next, fix) = a.take_line(line_parsed(line));
            &&& a.after(line.push(terminator)) == next
            &&& a.fixes(line.push(terminator)) == (match fix {
                Some(f) => seq![f],
                None => Seq::empty(),
            })
        }),
{
    let end = seq![terminator];
    lemma_line_accumulates(a, line);
    assert(a.line + line =~= line);
    assert(line.push(terminator) =~= line + end);
    law_chunks_do_not_matter(a, line, end);
    let mid = a.after(line);
    assert(end.drop_first() =~= Seq::<u8>::empty());
    assert(mid.step(terminator).0.after(Seq::empty()) == mid.step(terminator).0);
    assert(mid.step(terminator).0.fixes(Seq::empty()) =~= Seq::empty());
    let (next, fix) = a.take_line(line_parsed(line));
    assert(mid.step(end[0]) == (next, fix));
    assert(mid.fixes(end) =~= (match fix {
        Some(f) => seq![f],
        None => Seq::empty(),
    }));
    assert(a.fixes(line) + mid.fixes(end) =~= mid.fixes(end));
}

/// Nothing of an overlong line changes what is kept before its terminator.
proof fn lemma_overlong_ignores(a: Assembly, bytes: Seq<u8>)
    requires
        a.overlong,
        forall|i: int| 0 <= i < bytes.len() ==> !is_terminator(#[trigger] bytes[i]),
    ensures
        a.after(bytes) == a,
        a.fixes(bytes).len() == 0,
    decreases bytes.len(),
{
    if bytes.len() > 0 {
        let rest = bytes.drop_first();
        assert(!is_terminator(bytes[0]));
        assert forall|i: int| 0 <= i < rest.len() implies !is_terminator(#[trigger] rest[i]) by {
            assert(!is_terminator(bytes[i + 1]));
        }
        lemma_overlong_ignores(a, rest);
    }
}

/// A line longer than [`MAX_SENTENCE_LEN`] is discarded whole: no fix, no change to what is cached, and the next
/// line starts afresh.
pub proof fn law_overlong_line_is_discarded(a: Assembly, line: Seq<u8>, terminator: u8)
    requires
        a.line.len() == 0,
        !a.overlong,
        line.len() > MAX_SENTENCE_LEN,
        forall|i: int| 0 <= i < line.len() ==> !is_terminator(#[trigger] line[i]),
        is_terminator(terminator),
    ensures
        a.after(line.push(terminator)) == a,
        a.fixes(line.push(terminator)) == Seq::<GpsFix>::empty(),
{
    let head = line.take(MAX_SENTENCE_LEN as int);
    let over = seq![line[MAX_SENTENCE_LEN as int]];
    let tail = line.skip(MAX_SENTENCE_LEN + 1);
    let end = seq![terminator];
    assert(line.push(terminator) =~= head + (over + (tail + end)));
    lemma_line_accumulates(a, head);
    law_chunks_do_not_matter(a, head, over + (tail + end));
    let full = a.after(head);
    assert(!is_terminator(line[MAX_SENTENCE_LEN as int]));
    let dropped = full.step(line[MAX_SENTENCE_LEN as int]).0;
    assert((over + (tail + end)).drop_first() =~= tail + end);
    assert(full.after(over + (tail + end)) == dropped.after(tail + end));
    assert(full.fixes(over + (tail + end)) == dropped.fixes(tail + end));
    assert forall|i: int| 0 <= i < tail.len() implies !is_terminator(#[trigger] tail[i]) by {
        assert(!is_terminator(line[i + MAX_SENTENCE_LEN + 1]));
    }
    lemma_overlong_ignores(dropped, tail);
    law_chunks_do_not_matter(dropped, tail, end);
    assert(end.drop_first() =~= Seq::<u8>::empty());
    let last = dropped.step(terminator).0;
    assert(last.after(Seq::empty()) == last);
    assert(last.fixes(Seq::empty()) =~= Seq::empty());
    assert(last =~= a);
    assert(a.fixes(line.push(terminator)) =~= Seq::<GpsFix>::empty());
}

/// A body framed as `$body*HH` with its own checksum is accepted and comes out as it went in.
pub proof fn law_framed_body_is_accepted(body: Seq<u8>, hi: u8, lo: u8)
    requires
        forall|i: int| 0 <= i < body.len() ==> body[i] != STAR,
        hex_value(hi) is Some,
        hex_value(lo) is Some,
        hex_value(hi)->0 * 16 + hex_value(lo)->0 == xor_all(body),
    ensures
        sentence_body(seq![DOLLAR] + body + seq![STAR, hi, lo]) == Some(body),
{
    lemma_framed(body, hi, lo);
}

/// A framed body whose `HH` is not its checksum is rejected.
pub proof fn law_wrong_checksum_is_rejected(body: Seq<u8>, hi: u8, lo: u8)
    requires
        forall|i: int| 0 <= i < body.len() ==> body[i] != STAR,
        hex_value(hi) is Some,
        hex_value(lo) is Some,
        hex_value(hi)->0 * 16 + hex_value(lo)->0 != xor_all(body),
    ensures
        sentence_body(seq![DOLLAR] + body + seq![STAR, hi, lo]) is None,
        line_parsed(seq![DOLLAR] + body + seq![STAR, hi, lo]) == Parsed::Nothing,
{
    lemma_framed(body, hi, lo);
}

proof fn lemma_framed(body: Seq<u8>, hi: u8, lo: u8)
    requires
        forall|i: int| 0 <= i < body.len() ==> body[i] != STAR,
        hex_value(hi) is Some,
        hex_value(lo) is Some,
    ensures
        sentence_body(seq![DOLLAR] + body + seq![STAR, hi, lo]) == if hex_value(hi)->0 * 16 + hex_value(lo)->0
            == xor_all(body) {
            Some(body)
        } else {
            None
        },
{
    let line = seq![DOLLAR] + body + seq![STAR, hi, lo];
    let rest = body + seq![STAR, hi, lo];
    assert(line[0] == DOLLAR);
    assert(ascii::first_index(line, DOLLAR) == 0);
    ascii::lemma_first_index(line, BANG);
    assert(line.skip(1) =~= rest);
    ascii::lemma_first_index(rest, STAR);
    assert(rest[body.len() as int] == STAR);
    assert(rest.take(body.len() as int) =~= body);
    assert(rest[body.len() as int + 1] == hi);
    assert(rest[body.len() as int + 2] == lo);
    let star = ascii::first_index(rest, STAR);
    assert(star == body.len()) by {
        if star < body.len() {
            assert(rest[star] == body[star]);
        }
    }
}

/// Changing one byte of a body changes its checksum, so a line damaged in one byte is never accepted.
pub proof fn law_damaged_byte_changes_checksum(body: Seq<u8>, at: int, byte: u8)
    requires
        0 <= at < body.len(),
        byte != body[at],
    ensures
        xor_all(body.update(at, byte)) != xor_all(body),
    decreases body.len(),
{
    let changed = body.update(at, byte);
    let was = body.last();
    let now = changed.last();
    if at == body.len() - 1 {
        assert(changed.drop_last() =~= body.drop_last());
        let acc = xor_all(body.drop_last());
        assert(acc ^ now != acc ^ was) by (bit_vector)
            requires
                now != was,
        ;
    } else {
        law_damaged_byte_changes_checksum(body.drop_last(), at, byte);
        assert(changed.drop_last() =~= body.drop_last().update(at, byte));
        let a = xor_all(body.drop_last());
        let b = xor_all(changed.drop_last());
        assert(b ^ was != a ^ was) by (bit_vector)
            requires
                a != b,
        ;
    }
}

/// A longitude is never read as a latitude: more than two degree digits go with east and west only.
pub proof fn law_longitude_is_no_latitude(value: Seq<u8>, hemi: Seq<u8>)
    requires
        ascii::integer_part(value).len() > 4,
        hemi.len() > 0,
        hemi[0] == NORTH || hemi[0] == SOUTH,
    ensures
        coord_e7(value, hemi) is None,
{
}

/// Every coordinate that is read lies in its axis' range: 90 degrees of latitude, 180 degrees of longitude.
pub proof fn law_coordinates_stay_in_range(value: Seq<u8>, hemi: Seq<u8>)
    requires
        coord_e7(value, hemi) is Some,
    ensures
        -1_800_000_000 <= coord_e7(value, hemi)->0 <= 1_800_000_000,
        hemi[0] == NORTH || hemi[0] == SOUTH ==> -900_000_000 <= coord_e7(value, hemi)->0 <= 900_000_000,
        hemi[0] == NORTH || hemi[0] == EAST ==> coord_e7(value, hemi)->0 >= 0,
        hemi[0] == SOUTH || hemi[0] == WEST ==> coord_e7(value, hemi)->0 <= 0,
{
    let int_s = ascii::integer_part(value);
    ascii::lemma_dec_value_grows(int_s, int_s.len() - 2);
    let minutes = int_s.skip(int_s.len() - 2);
    assert forall|i: int| 0 <= i < minutes.len() implies ascii::is_digit(#[trigger] minutes[i]) by {
        assert(ascii::is_digit(int_s[i + int_s.len() - 2]));
    }
    ascii::lemma_dec_value_bound(minutes);
    lemma_fraction_nonneg(ascii::fraction_part(value), 5);
}

/// No line yields a speed past [`MAX_SPEED_CM_S`], so the km/h arithmetic of a display (times 36) fits in 32 bits.
pub proof fn law_speed_is_bounded(line: Seq<u8>)
    ensures
        line_parsed(line) matches Parsed::Speed { speed_cm_s, lat_e7, lon_e7 } ==> speed_cm_s <= MAX_SPEED_CM_S
            && speed_cm_s * 36 <= u32::MAX,
{
}

/// A position is reported only by a sentence that vouches for it: GGA with a usable fix, or RMC with an active
/// status.
pub proof fn law_position_needs_a_fix(line: Seq<u8>)
    ensures
        line_parsed(line) matches Parsed::Status { satellites, fix, lat_e7, lon_e7 } ==> (fix.raw == 0 ==> lat_e7
            is None && lon_e7 is None),
        line_parsed(line) matches Parsed::Speed { speed_cm_s, lat_e7, lon_e7 } ==> (lat_e7 is Some || lon_e7
            is Some ==> sentence_body(line) is Some && sentence_kind(sentence_body(line)->0) == Kind::Rmc
            && field_value(sentence_body(line)->0, 2) == Some(seq![ACTIVE])),
{
}

/// Speeds are rounded to nearest: a knot is 51.4444 cm/s, and 36 milli-km/h are one cm/s. Past ten million cm/s a speed
/// is held there.
pub proof fn law_speeds_round_to_nearest(milli: u32)
    ensures
        ({
            let knots = knots_speed(milli as int);
            let kmh = kmh_speed(milli as int);
            &&& 0 <= knots <= 10_000_000
            &&& knots < 10_000_000 ==> -5_000_000 <= milli * 514_444 - knots * 10_000_000 < 5_000_000
            &&& knots == 10_000_000 ==> milli * 514_444 >= 10_000_000 * 10_000_000 - 5_000_000
            &&& 0 <= kmh <= 10_000_000
            &&& kmh < 10_000_000 ==> -18 <= milli - kmh * 36 < 18
            &&& kmh == 10_000_000 ==> milli >= 10_000_000 * 36 - 18
        }),
{
}

/// Hexadecimal digits count from zero to fifteen in either case, and no other byte is one.
pub proof fn law_hex_digits(b: u8, v: u8)
    ensures
        v < 10 ==> hex_value((48 + v) as u8) == Some(v),
        10 <= v < 16 ==> hex_value((55 + v) as u8) == Some(v) && hex_value((87 + v) as u8) == Some(v),
        hex_value(b) is Some <==> 48 <= b <= 57 || 65 <= b <= 70 || 97 <= b <= 102,
{
}

/// A plain number reads as what its digits write, where that fits in 32 bits; too large a number, an empty field and a
/// field with any other byte read as nothing.
pub proof fn law_plain_numbers_read(n: nat, len: nat, s: Seq<u8>)
    requires
        n < ascii::pow10(len),
    ensures
        len > 0 && n <= 0xffff_ffff ==> uint_value(ascii::digits(n, len)) == Some(n as u32),
        n > 0xffff_ffff ==> uint_value(ascii::digits(n, len)) is None,
        uint_value(Seq::empty()) is None,
        (exists|i: int| 0 <= i < s.len() && !(48 <= (#[trigger] s[i]) <= 57)) ==> uint_value(s) is None,
{
    ascii::law_digits_read_back(n, len);
    ascii::law_digits_are_ascii_digits(s);
}

/// A decimal field `a.b` is worth a thousand times its integer part plus its first three decimals, `a` alone as if no
/// decimals followed; at least one digit has to be there, and the result has to fit in 32 bits.
pub proof fn law_decimals_read_as_thousandths(a: Seq<u8>, b: Seq<u8>)
    requires
        ascii::all_digits(a),
        ascii::all_digits(b),
    ensures
        ({
            let milli = ascii::dec_value(a) * 1000 + ascii::scaled_fraction(b, 3);
            &&& a.len() + b.len() > 0 && milli <= 0xffff_ffff ==> decimal_milli(a + seq![0x2eu8] + b) == Some(milli as u32)
            &&& a.len() + b.len() == 0 || milli > 0xffff_ffff ==> decimal_milli(a + seq![0x2eu8] + b) is None
        }),
        a.len() > 0 && ascii::dec_value(a) * 1000 <= 0xffff_ffff ==> decimal_milli(a) == Some(
            (ascii::dec_value(a) * 1000) as u32,
        ),
{
    assert forall|i: int| 0 <= i < a.len() implies (#[trigger] a[i]) != 0x2e by {
        assert(ascii::is_digit(a[i]));
    }
    ascii::law_decimals_split_at_the_point(a, b);
    let none = Seq::<u8>::empty();
    assert(none.take(0) =~= none);
    let p = ascii::pow10(3);
    assert(0 * p == 0) by (nonlinear_arith);
    assert(ascii::scaled_fraction(none, 3) == 0);
}

/// A number with three decimals reads as its thousandths.
pub proof fn law_three_decimals_read_exactly(whole: nat, len: nat, milli: nat)
    requires
        0 < len,
        whole < ascii::pow10(len),
        milli < 1000,
        whole * 1000 + milli <= 0xffff_ffff,
    ensures
        decimal_milli(ascii::digits(whole, len) + seq![0x2eu8] + ascii::digits(milli, 3)) == Some(
            (whole * 1000 + milli) as u32,
        ),
{
    reveal_with_fuel(ascii::pow10, 4);
    ascii::law_digits_read_back(whole, len);
    ascii::law_digits_read_back(milli, 3);
    ascii::law_fractions_have_fixed_places(ascii::digits(milli, 3), Seq::empty(), 3);
    law_decimals_read_as_thousandths(ascii::digits(whole, len), ascii::digits(milli, 3));
}

/// A decimal field with a byte that is neither a digit nor its one point reads as nothing.
pub proof fn law_malformed_decimals_are_rejected(s: Seq<u8>, i: int, j: int)
    requires
        0 <= i < s.len(),
        !(48 <= s[i] <= 57),
        s[i] != 0x2e || (0 <= j < i && s[j] == 0x2e),
    ensures
        decimal_milli(s) is None,
{
    let dot = ascii::first_index(s, 0x2e);
    ascii::lemma_first_index(s, 0x2e);
    if i < dot {
        assert(ascii::integer_part(s)[i] == s[i]);
        assert(!ascii::is_digit(s[i]));
    } else {
        assert(dot < s.len());
        assert(i > dot);
        assert(ascii::fraction_part(s)[i - dot - 1] == s[i]);
        assert(!ascii::is_digit(s[i]));
    }
}

/// A coordinate written as degrees, minutes and 1e-5 minutes reads as degrees times 1e7, rounded to nearest, with the sign
/// and the range of its hemisphere: two degree digits up to 90 for `N` and `S`, three up to 180 for `E` and `W`.
pub proof fn law_coordinates_read_in_degrees(deg: nat, min: nat, frac: nat, hemi: u8)
    requires
        hemi == 78 || hemi == 83 || hemi == 69 || hemi == 87,
        deg < (if hemi == 78 || hemi == 83 {
            100nat
        } else {
            1000
        }),
        min < 60,
        frac < 100_000,
    ensures
        ({
            let len: nat = if hemi == 78 || hemi == 83 {
                2
            } else {
                3
            };
            let limit: int = if hemi == 78 || hemi == 83 {
                90
            } else {
                180
            };
            let value = ascii::digits(deg, len) + ascii::digits(min, 2) + seq![0x2eu8] + ascii::digits(frac, 5);
            let exact_e5 = deg * 6_000_000 + min * 100_000 + frac;
            &&& exact_e5 <= limit * 6_000_000 ==> {
                &&& coord_e7(value, seq![hemi]) matches Some(e7) && {
                    let size = if hemi == 78 || hemi == 69 {
                        e7 as int
                    } else {
                        -e7
                    };
                    -3 <= 10 * exact_e5 - 6 * size <= 3
                }
            }
            &&& exact_e5 > limit * 6_000_000 ==> coord_e7(value, seq![hemi]) is None
        }),
{
    let len: nat = if hemi == 78 || hemi == 83 {
        2
    } else {
        3
    };
    let d = ascii::digits(deg, len);
    let m = ascii::digits(min, 2);
    let f = ascii::digits(frac, 5);
    reveal_with_fuel(ascii::pow10, 7);
    ascii::law_digits_read_back(deg, len);
    ascii::law_digits_read_back(min, 2);
    ascii::law_digits_read_back(frac, 5);
    let int_s = d + m;
    assert forall|i: int| 0 <= i < int_s.len() implies ascii::is_digit(#[trigger] int_s[i]) by {
        if i < len {
            assert(ascii::is_digit(d[i]));
        } else {
            assert(ascii::is_digit(m[i - len]));
        }
    }
    assert forall|i: int| 0 <= i < int_s.len() implies (#[trigger] int_s[i]) != 0x2e by {
        assert(ascii::is_digit(int_s[i]));
    }
    let value = int_s + seq![0x2eu8] + f;
    ascii::law_decimals_split_at_the_point(int_s, f);
    ascii::law_fractions_have_fixed_places(f, Seq::empty(), 5);
    assert(int_s.take(int_s.len() - 2) =~= d);
    assert(int_s.skip(int_s.len() - 2) =~= m);
    assert(seq![hemi][0] == hemi);
    assert(minutes_e5(value) == min * 100_000 + frac);
    assert(is_degrees_minutes(value));
}

/// A coordinate reads alike however its fraction is written: zeros may be added up to the fifth decimal, digits past it do
/// not matter, and a point with nothing behind it may be left out. A longitude may have leading zeros, and only the first
/// byte of the hemisphere counts.
pub proof fn law_coordinates_need_no_padding(d: Seq<u8>, m: Seq<u8>, f: Seq<u8>, hemi: Seq<u8>)
    requires
        ascii::all_digits(d),
        ascii::all_digits(m),
        ascii::all_digits(f),
        d.len() >= 2,
        m.len() == 2,
        hemi.len() > 0,
    ensures
        ({
            let read = coord_e7(d + m + seq![0x2eu8] + f, hemi);
            &&& coord_e7(d + m + seq![0x2eu8] + f, seq![hemi[0]]) == read
            &&& f.len() < 5 ==> coord_e7(d + m + seq![0x2eu8] + f.push(0x30), hemi) == read
            &&& f.len() >= 5 ==> coord_e7(d + m + seq![0x2eu8] + f.take(5), hemi) == read
            &&& f.len() == 0 ==> coord_e7(d + m, hemi) == read
            &&& hemi[0] == 69 || hemi[0] == 87 ==> coord_e7(seq![0x30u8] + d + m + seq![0x2eu8] + f, hemi) == read
        }),
{
    let value = d + m + seq![0x2eu8] + f;
    lemma_coordinate_parts(d, m, f);
    assert(seq![hemi[0]][0] == hemi[0]);
    assert(hemisphere(seq![hemi[0]]) == hemisphere(hemi));
    let n = f.len();
    if n < 5 {
        let longer = f.push(0x30);
        assert forall|i: int| 0 <= i < longer.len() implies ascii::is_digit(#[trigger] longer[i]) by {
            if i < n {
                assert(ascii::is_digit(f[i]));
            }
        }
        lemma_coordinate_parts(d, m, longer);
        assert(longer.drop_last() =~= f);
        assert(longer.take(n as int + 1) =~= longer);
        assert(f.take(n as int) =~= f);
        let x = ascii::dec_value(f);
        let p = ascii::pow10((4 - n) as nat);
        assert(ascii::pow10((5 - n) as nat) == 10 * p);
        assert((x * 10) * p == x * (10 * p)) by (nonlinear_arith);
        assert(ascii::dec_value(longer) == x * 10);
        assert(ascii::scaled_fraction(longer, 5) == ascii::scaled_fraction(f, 5));
    } else {
        let kept = f.take(5);
        assert forall|i: int| 0 <= i < kept.len() implies ascii::is_digit(#[trigger] kept[i]) by {
            assert(ascii::is_digit(f[i]));
        }
        lemma_coordinate_parts(d, m, kept);
        assert(kept.take(5) =~= kept);
        assert(ascii::scaled_fraction(kept, 5) == ascii::scaled_fraction(f, 5));
    }
    if n == 0 {
        let bare = d + m;
        ascii::lemma_first_index(bare, 0x2e);
        assert forall|i: int| 0 <= i < bare.len() implies ascii::is_digit(#[trigger] bare[i]) by {
            if i < d.len() {
                assert(ascii::is_digit(d[i]));
            } else {
                assert(ascii::is_digit(m[i - d.len()]));
            }
        }
        let dot = ascii::first_index(bare, 0x2e);
        if dot < bare.len() {
            assert(ascii::is_digit(bare[dot]));
        }
        assert(bare.take(bare.len() as int) =~= bare);
        assert(f =~= Seq::<u8>::empty());
        assert(ascii::integer_part(bare) =~= d + m);
        assert(ascii::fraction_part(bare) =~= f);
    }
    if hemi[0] == 69 || hemi[0] == 87 {
        let zd = seq![0x30u8] + d;
        assert forall|i: int| 0 <= i < zd.len() implies ascii::is_digit(#[trigger] zd[i]) by {
            if i > 0 {
                assert(ascii::is_digit(d[i - 1]));
            }
        }
        lemma_coordinate_parts(zd, m, f);
        lemma_leading_zero(d);
    }
}

proof fn lemma_leading_zero(s: Seq<u8>)
    ensures
        ascii::dec_value(seq![0x30u8] + s) == ascii::dec_value(s),
    decreases s.len(),
{
    let t = seq![0x30u8] + s;
    if s.len() == 0 {
        assert(t.drop_last() =~= s);
    } else {
        assert(t.drop_last() =~= seq![0x30u8] + s.drop_last());
        lemma_leading_zero(s.drop_last());
    }
}

/// What a coordinate of degrees, two digits of minutes and a fraction comes apart into.
proof fn lemma_coordinate_parts(d: Seq<u8>, m: Seq<u8>, f: Seq<u8>)
    requires
        ascii::all_digits(d),
        ascii::all_digits(m),
        ascii::all_digits(f),
        d.len() >= 2,
        m.len() == 2,
    ensures
        ({
            let value = d + m + seq![0x2eu8] + f;
            &&& ascii::integer_part(value) == d + m
            &&& ascii::fraction_part(value) == f
            &&& (d + m).take((d + m).len() - 2) == d
            &&& (d + m).skip((d + m).len() - 2) == m
            &&& is_degrees_minutes(value) == (ascii::dec_value(m) < 60)
        }),
{
    let int_s = d + m;
    assert forall|i: int| 0 <= i < int_s.len() implies ascii::is_digit(#[trigger] int_s[i]) by {
        if i < d.len() {
            assert(ascii::is_digit(d[i]));
        } else {
            assert(ascii::is_digit(m[i - d.len()]));
        }
    }
    assert forall|i: int| 0 <= i < int_s.len() implies (#[trigger] int_s[i]) != 0x2e by {
        assert(ascii::is_digit(int_s[i]));
    }
    ascii::law_decimals_split_at_the_point(int_s, f);
    assert(int_s.take(int_s.len() - 2) =~= d);
    assert(int_s.skip(int_s.len() - 2) =~= m);
}

/// Minutes of 60 and more, fewer than four integer digits, any other byte and any other hemisphere make no coordinate.
pub proof fn law_malformed_coordinates_are_rejected(value: Seq<u8>, hemi: Seq<u8>, i: int)
    ensures
        hemi.len() == 0 ==> coord_e7(value, hemi) is None,
        hemi.len() > 0 && hemi[0] != 78 && hemi[0] != 83 && hemi[0] != 69 && hemi[0] != 87 ==> coord_e7(value, hemi) is None,
        ascii::integer_part(value).len() < 4 ==> coord_e7(value, hemi) is None,
        ascii::integer_part(value).len() >= 4 && ascii::dec_value(
            ascii::integer_part(value).skip(ascii::integer_part(value).len() - 2),
        ) >= 60 ==> coord_e7(value, hemi) is None,
        0 <= i < ascii::integer_part(value).len() && !(48 <= ascii::integer_part(value)[i] <= 57) ==> coord_e7(value, hemi)
            is None,
        0 <= i < ascii::fraction_part(value).len() && !(48 <= ascii::fraction_part(value)[i] <= 57) ==> coord_e7(value, hemi)
            is None,
{
    let a = ascii::integer_part(value);
    let b = ascii::fraction_part(value);
    if 0 <= i < a.len() && !(48 <= a[i] <= 57) {
        assert(!ascii::is_digit(a[i]));
    }
    if 0 <= i < b.len() && !(48 <= b[i] <= 57) {
        assert(!ascii::is_digit(b[i]));
    }
}

/// The checksum is the exclusive-or of all bytes: that of two runs is that of the one combined with that of the other.
pub proof fn law_checksum_is_an_exclusive_or(a: Seq<u8>, b: Seq<u8>, byte: u8)
    ensures
        xor_all(Seq::empty()) == 0,
        xor_all(seq![byte]) == byte,
        xor_all(a + b) == xor_all(a) ^ xor_all(b),
    decreases b.len(),
{
    assert(seq![byte].drop_last() =~= Seq::<u8>::empty());
    assert(xor_all(Seq::<u8>::empty()) == 0);
    assert(0u8 ^ byte == byte) by (bit_vector);
    let x = xor_all(a);
    if b.len() == 0 {
        assert(a + b =~= a);
        assert(x ^ 0u8 == x) by (bit_vector);
    } else {
        law_checksum_is_an_exclusive_or(a, b.drop_last(), byte);
        assert((a + b).drop_last() =~= a + b.drop_last());
        let y = xor_all(b.drop_last());
        let z = b.last();
        assert((x ^ y) ^ z == x ^ (y ^ z)) by (bit_vector);
    }
}

/// The sentence of a line starts behind its first `$` or `!`, whatever stands before it. With a `*` it ends there and is
/// taken exactly where the two bytes behind the `*` are the hexadecimal checksum of what lies between; what follows them
/// does not matter.
pub proof fn law_sentence_lies_between_start_and_star(
    noise: Seq<u8>,
    start: u8,
    body: Seq<u8>,
    hi: u8,
    lo: u8,
    rest: Seq<u8>,
)
    requires
        forall|i: int| 0 <= i < noise.len() ==> (#[trigger] noise[i]) != 0x24 && noise[i] != 0x21,
        start == 0x24 || start == 0x21,
        forall|i: int| 0 <= i < body.len() ==> (#[trigger] body[i]) != 0x2a,
    ensures
        ({
            let line = noise + seq![start] + body + seq![0x2au8, hi, lo] + rest;
            let right = hex_value(hi) is Some && hex_value(lo) is Some && hex_value(hi)->0 * 16 + hex_value(lo)->0
                == xor_all(body);
            &&& right ==> sentence_body(line) == Some(body)
            &&& !right ==> sentence_body(line) is None
        }),
{
    let line = noise + seq![start] + body + seq![0x2au8, hi, lo] + rest;
    let tail = body + seq![0x2au8, hi, lo] + rest;
    lemma_sentence_start(noise, start, tail);
    assert(line =~= noise + seq![start] + tail);
    assert(line.skip(noise.len() as int + 1) =~= tail);
    ascii::law_first_index_finds(body, 0x2a, seq![hi, lo] + rest);
    assert(tail =~= body + seq![0x2au8] + (seq![hi, lo] + rest));
    assert(tail.take(body.len() as int) =~= body);
    assert(tail[body.len() as int + 1] == hi);
    assert(tail[body.len() as int + 2] == lo);
}

proof fn lemma_sentence_start(noise: Seq<u8>, start: u8, tail: Seq<u8>)
    requires
        forall|i: int| 0 <= i < noise.len() ==> (#[trigger] noise[i]) != 0x24 && noise[i] != 0x21,
        start == 0x24 || start == 0x21,
    ensures
        sentence_start(noise + seq![start] + tail) == noise.len(),
{
    let line = noise + seq![start] + tail;
    ascii::lemma_first_index(line, 0x24);
    ascii::lemma_first_index(line, 0x21);
    ascii::law_first_index_finds(noise, start, tail);
    assert forall|i: int| 0 <= i < noise.len() implies line[i] != 0x24 && line[i] != 0x21 by {
        assert(line[i] == noise[i]);
    }
}

/// A line without a checksum is taken as it is, up to its first CR or LF; a line whose checksum is cut short, and one
/// without a start, is not taken.
pub proof fn law_sentence_without_checksum_is_taken(noise: Seq<u8>, start: u8, body: Seq<u8>, end: u8, rest: Seq<u8>)
    requires
        forall|i: int| 0 <= i < noise.len() ==> (#[trigger] noise[i]) != 0x24 && noise[i] != 0x21,
        start == 0x24 || start == 0x21,
        forall|i: int| 0 <= i < body.len() ==> (#[trigger] body[i]) != 0x2a && body[i] != 13 && body[i] != 10,
        end == 13 || end == 10,
        forall|i: int| 0 <= i < rest.len() ==> (#[trigger] rest[i]) != 0x2a,
    ensures
        sentence_body(noise + seq![start] + body) == Some(body),
        sentence_body(noise + seq![start] + body + seq![end] + rest) == Some(body),
        sentence_body(noise + seq![start] + body + seq![0x2au8]) is None,
        sentence_body(noise + seq![start] + body + seq![0x2au8, end]) is None,
        sentence_body(noise) is None,
{
    ascii::lemma_first_index(noise, 0x24);
    ascii::lemma_first_index(noise, 0x21);
    lemma_open_line(noise, start, body);
    lemma_ended_line(noise, start, body, end, rest);
    lemma_cut_line(noise, start, body, Seq::empty());
    lemma_cut_line(noise, start, body, seq![end]);
    let cut = noise + seq![start] + body + seq![0x2au8];
    assert(cut + Seq::<u8>::empty() =~= cut);
    assert(cut + seq![end] =~= noise + seq![start] + body + seq![0x2au8, end]);
}

proof fn lemma_open_line(noise: Seq<u8>, start: u8, body: Seq<u8>)
    requires
        forall|i: int| 0 <= i < noise.len() ==> (#[trigger] noise[i]) != 0x24 && noise[i] != 0x21,
        start == 0x24 || start == 0x21,
        forall|i: int| 0 <= i < body.len() ==> (#[trigger] body[i]) != 0x2a && body[i] != 13 && body[i] != 10,
    ensures
        sentence_body(noise + seq![start] + body) == Some(body),
{
    lemma_sentence_start(noise, start, body);
    let line = noise + seq![start] + body;
    assert(line.skip(noise.len() as int + 1) =~= body);
    ascii::lemma_first_index(body, 0x2a);
    ascii::lemma_first_index(body, 13);
    ascii::lemma_first_index(body, 10);
    assert(body.take(body.len() as int) =~= body);
}

proof fn lemma_ended_line(noise: Seq<u8>, start: u8, body: Seq<u8>, end: u8, rest: Seq<u8>)
    requires
        forall|i: int| 0 <= i < noise.len() ==> (#[trigger] noise[i]) != 0x24 && noise[i] != 0x21,
        start == 0x24 || start == 0x21,
        forall|i: int| 0 <= i < body.len() ==> (#[trigger] body[i]) != 0x2a && body[i] != 13 && body[i] != 10,
        end == 13 || end == 10,
        forall|i: int| 0 <= i < rest.len() ==> (#[trigger] rest[i]) != 0x2a,
    ensures
        sentence_body(noise + seq![start] + body + seq![end] + rest) == Some(body),
{
    let tail = body + seq![end] + rest;
    let n = body.len() as int;
    lemma_sentence_start(noise, start, tail);
    let line = noise + seq![start] + body + seq![end] + rest;
    assert(line =~= noise + seq![start] + tail);
    assert(line.skip(noise.len() as int + 1) =~= tail);
    let star = ascii::first_index(tail, 0x2a);
    ascii::lemma_first_index(tail, 0x2a);
    if star < tail.len() {
        if star < n {
            assert(tail[star] == body[star]);
        } else if star > n {
            assert(tail[star] == rest[star - n - 1]);
        }
    }
    let cr = ascii::first_index(tail, 13);
    let lf = ascii::first_index(tail, 10);
    ascii::lemma_first_index(tail, 13);
    ascii::lemma_first_index(tail, 10);
    if cr < n {
        assert(tail[cr] == body[cr]);
    }
    if lf < n {
        assert(tail[lf] == body[lf]);
    }
    ascii::law_first_index_finds(body, end, rest);
    assert(tail.take(n) =~= body);
}

proof fn lemma_cut_line(noise: Seq<u8>, start: u8, body: Seq<u8>, rest: Seq<u8>)
    requires
        forall|i: int| 0 <= i < noise.len() ==> (#[trigger] noise[i]) != 0x24 && noise[i] != 0x21,
        start == 0x24 || start == 0x21,
        forall|i: int| 0 <= i < body.len() ==> (#[trigger] body[i]) != 0x2a,
        rest.len() < 2,
    ensures
        sentence_body(noise + seq![start] + body + seq![0x2au8] + rest) is None,
{
    let tail = body + seq![0x2au8] + rest;
    lemma_sentence_start(noise, start, tail);
    let line = noise + seq![start] + body + seq![0x2au8] + rest;
    assert(line =~= noise + seq![start] + tail);
    assert(line.skip(noise.len() as int + 1) =~= tail);
    ascii::law_first_index_finds(body, 0x2a, rest);
}

/// Fields joined by commas.
pub open spec fn joined(fields: Seq<Seq<u8>>) -> Seq<u8>
    decreases fields.len(),
{
    if fields.len() == 0 {
        Seq::empty()
    } else if fields.len() == 1 {
        fields[0]
    } else {
        fields[0] + seq![0x2cu8] + joined(fields.drop_first())
    }
}

/// No field holds a comma.
pub open spec fn comma_free(fields: Seq<Seq<u8>>) -> bool {
    forall|i: int, j: int| 0 <= i < fields.len() && 0 <= j < fields[i].len() ==> (#[trigger] fields[i][j]) != 0x2c
}

/// What commas join, reading by number takes apart again: each field comes back as it was, counted from zero, and there is
/// none past the last. An empty field holds nothing.
pub proof fn law_fields_come_apart_at_commas(fields: Seq<Seq<u8>>, k: nat)
    requires
        fields.len() > 0,
        comma_free(fields),
    ensures
        k < fields.len() ==> nth_field(joined(fields), k) == Some(fields[k as int]),
        k >= fields.len() ==> nth_field(joined(fields), k) is None,
        k < fields.len() && fields[k as int].len() > 0 ==> field_value(joined(fields), k) == Some(fields[k as int]),
        k >= fields.len() || fields[k as int].len() == 0 ==> field_value(joined(fields), k) is None,
    decreases fields.len(),
{
    let first = fields[0];
    let body = joined(fields);
    assert forall|j: int| 0 <= j < first.len() implies (#[trigger] first[j]) != 0x2c by {
        assert(fields[0][j] != 0x2c);
    }
    if fields.len() == 1 {
        ascii::lemma_first_index(body, 0x2c);
        assert(body.take(body.len() as int) =~= body);
    } else {
        let rest = joined(fields.drop_first());
        ascii::law_first_index_finds(first, 0x2c, rest);
        assert(body.take(first.len() as int) =~= first);
        assert(body.skip(first.len() as int + 1) =~= rest);
        if k > 0 {
            let others = fields.drop_first();
            assert forall|i: int, j: int| 0 <= i < others.len() && 0 <= j < others[i].len() implies (
            #[trigger] others[i][j]) != 0x2c by {
                assert(fields[i + 1][j] != 0x2c);
            }
            law_fields_come_apart_at_commas(others, (k - 1) as nat);
        }
    }
}

/// The kind of a sentence is told by the three letters before the first comma, whatever talker stands before them.
pub proof fn law_any_talker_is_read(talker: Seq<u8>, rest: Seq<u8>)
    requires
        forall|i: int| 0 <= i < talker.len() ==> (#[trigger] talker[i]) != 0x2c,
        rest.len() == 0 || rest[0] == 0x2c,
    ensures
        sentence_kind(talker + seq![82u8, 77, 67] + rest) == Kind::Rmc,
        sentence_kind(talker + seq![86u8, 84, 71] + rest) == Kind::Vtg,
        sentence_kind(talker + seq![71u8, 71, 65] + rest) == Kind::Gga,
{
    lemma_kind(talker, 82, 77, 67, rest);
    lemma_kind(talker, 86, 84, 71, rest);
    lemma_kind(talker, 71, 71, 65, rest);
    assert(seq![82u8, 77, 67][0] == 82);
    assert(seq![86u8, 84, 71][0] == 86);
    assert(seq![71u8, 71, 65][0] == 71);
}

/// Any other three letters, and an address of fewer than three, are of no kind that is read.
pub proof fn law_other_sentences_are_ignored(talker: Seq<u8>, a: u8, b: u8, c: u8, rest: Seq<u8>)
    requires
        forall|i: int| 0 <= i < talker.len() ==> (#[trigger] talker[i]) != 0x2c,
        a != 0x2c,
        b != 0x2c,
        c != 0x2c,
        rest.len() == 0 || rest[0] == 0x2c,
        !(a == 82 && b == 77 && c == 67) && !(a == 86 && b == 84 && c == 71) && !(a == 71 && b == 71 && c == 65),
    ensures
        body_parsed(talker + seq![a, b, c] + rest) == Parsed::Nothing,
        body_parsed(seq![a, b] + rest) == Parsed::Nothing,
        body_parsed(rest) == Parsed::Nothing,
{
    lemma_kind(talker, a, b, c, rest);
    let s = seq![a, b, c];
    assert(s[0] == a && s[1] == b && s[2] == c);
    assert(seq![82u8, 77, 67][0] == 82 && seq![82u8, 77, 67][1] == 77 && seq![82u8, 77, 67][2] == 67);
    assert(seq![86u8, 84, 71][0] == 86 && seq![86u8, 84, 71][1] == 84 && seq![86u8, 84, 71][2] == 71);
    assert(seq![71u8, 71, 65][0] == 71 && seq![71u8, 71, 65][1] == 71 && seq![71u8, 71, 65][2] == 65);
    let short = seq![a, b] + rest;
    ascii::lemma_first_index(short, 0x2c);
    ascii::lemma_first_index(rest, 0x2c);
    assert(short[0] == a && short[1] == b);
    if rest.len() > 0 {
        assert(short[2] == 0x2c);
    }
}

proof fn lemma_kind(talker: Seq<u8>, a: u8, b: u8, c: u8, rest: Seq<u8>)
    requires
        forall|i: int| 0 <= i < talker.len() ==> (#[trigger] talker[i]) != 0x2c,
        a != 0x2c,
        b != 0x2c,
        c != 0x2c,
        rest.len() == 0 || rest[0] == 0x2c,
    ensures
        ({
            let body = talker + seq![a, b, c] + rest;
            let end = ascii::first_index(body, 0x2c);
            &&& end == talker.len() + 3
            &&& body.take(end).skip(end - 3) == seq![a, b, c]
        }),
{
    let addr = talker + seq![a, b, c];
    let body = addr + rest;
    assert forall|i: int| 0 <= i < addr.len() implies (#[trigger] addr[i]) != 0x2c by {
        if i < talker.len() {
            assert(addr[i] == talker[i]);
        }
    }
    if rest.len() > 0 {
        ascii::law_first_index_finds(addr, 0x2c, rest.drop_first());
        assert(body =~= addr + seq![0x2cu8] + rest.drop_first());
    } else {
        ascii::law_first_index_finds(addr, 0x2c, rest);
        assert(body =~= addr);
    }
    let end = ascii::first_index(body, 0x2c);
    assert(body.take(end).skip(end - 3) =~= seq![a, b, c]);
}

/// Sentences that differ in nothing but the talker yield the same.
pub proof fn law_talker_does_not_matter(one: Seq<u8>, other: Seq<u8>, a: u8, b: u8, c: u8, rest: Seq<u8>)
    requires
        forall|i: int| 0 <= i < one.len() ==> (#[trigger] one[i]) != 0x2c,
        forall|i: int| 0 <= i < other.len() ==> (#[trigger] other[i]) != 0x2c,
        a != 0x2c,
        b != 0x2c,
        c != 0x2c,
        rest.len() == 0 || rest[0] == 0x2c,
    ensures
        body_parsed(one + seq![a, b, c] + rest) == body_parsed(other + seq![a, b, c] + rest),
{
    let x = one + seq![a, b, c] + rest;
    let y = other + seq![a, b, c] + rest;
    lemma_kind(one, a, b, c, rest);
    lemma_kind(other, a, b, c, rest);
    let ex = ascii::first_index(x, 0x2c);
    let ey = ascii::first_index(y, 0x2c);
    assert(x.take(ex).skip(ex - 3) == y.take(ey).skip(ey - 3));
    assert(sentence_kind(x) == sentence_kind(y));
    assert forall|k: nat| k > 0 implies #[trigger] nth_field(x, k) == nth_field(y, k) by {
        if rest.len() > 0 {
            assert(x.skip(ex + 1) =~= rest.drop_first());
            assert(y.skip(ey + 1) =~= rest.drop_first());
        }
    }
    assert(nth_field(x, 2) == nth_field(y, 2));
    assert(nth_field(x, 3) == nth_field(y, 3));
    assert(nth_field(x, 4) == nth_field(y, 4));
    assert(nth_field(x, 5) == nth_field(y, 5));
    assert(nth_field(x, 6) == nth_field(y, 6));
    assert(nth_field(x, 7) == nth_field(y, 7));
}

proof fn lemma_joined_kind(fields: Seq<Seq<u8>>, talker: Seq<u8>, a: u8, b: u8, c: u8) -> (rest: Seq<u8>)
    requires
        fields.len() > 0,
        comma_free(fields),
        fields[0] == talker + seq![a, b, c],
    ensures
        forall|i: int| 0 <= i < talker.len() ==> (#[trigger] talker[i]) != 0x2c,
        a != 0x2c && b != 0x2c && c != 0x2c,
        rest.len() == 0 || rest[0] == 0x2c,
        joined(fields) == talker + seq![a, b, c] + rest,
{
    let n = talker.len() as int;
    assert forall|i: int| 0 <= i < talker.len() implies (#[trigger] talker[i]) != 0x2c by {
        assert(fields[0][i] != 0x2c);
    }
    assert(fields[0][n] != 0x2c && fields[0][n + 1] != 0x2c && fields[0][n + 2] != 0x2c);
    let rest = if fields.len() == 1 {
        Seq::<u8>::empty()
    } else {
        seq![0x2cu8] + joined(fields.drop_first())
    };
    assert(joined(fields) =~= talker + seq![a, b, c] + rest);
    rest
}

/// An RMC sentence, field by field: its seventh field is the speed in knots, without which it yields nothing; its third to
/// sixth are latitude and longitude, which count exactly where its second is `A`.
pub proof fn law_rmc_is_read_by_its_fields(fields: Seq<Seq<u8>>, talker: Seq<u8>)
    requires
        fields.len() >= 8,
        comma_free(fields),
        fields[0] == talker + seq![82u8, 77, 67],
    ensures
        ({
            let parsed = body_parsed(joined(fields));
            let active = fields[2] == seq![65u8];
            &&& decimal_milli(fields[7]) is None ==> parsed == Parsed::Nothing
            &&& decimal_milli(fields[7]) matches Some(milliknots) ==> parsed == (Parsed::Speed {
                speed_cm_s: knots_speed(milliknots as int) as u32,
                lat_e7: if active { coord_e7(fields[3], fields[4]) } else { None },
                lon_e7: if active { coord_e7(fields[5], fields[6]) } else { None },
            })
        }),
{
    let rest = lemma_joined_kind(fields, talker, 82, 77, 67);
    law_any_talker_is_read(talker, rest);
    law_fields_come_apart_at_commas(fields, 2);
    law_fields_come_apart_at_commas(fields, 7);
    lemma_field_coord(fields, 3, 4);
    lemma_field_coord(fields, 5, 6);
    lemma_empty_fields_read_as_nothing();
    assert(seq![ACTIVE].len() == 1);
}

/// A VTG sentence, field by field: its seventh field is the speed in km/h; where that is missing its fifth, in knots. It
/// never yields a position.
pub proof fn law_vtg_is_read_by_its_fields(fields: Seq<Seq<u8>>, talker: Seq<u8>)
    requires
        fields.len() >= 8,
        comma_free(fields),
        fields[0] == talker + seq![86u8, 84, 71],
    ensures
        ({
            let parsed = body_parsed(joined(fields));
            &&& decimal_milli(fields[7]) matches Some(milli_kmh) ==> parsed == (Parsed::Speed {
                speed_cm_s: kmh_speed(milli_kmh as int) as u32,
                lat_e7: None,
                lon_e7: None,
            })
            &&& decimal_milli(fields[7]) is None && decimal_milli(fields[5]) is None ==> parsed == Parsed::Nothing
            &&& decimal_milli(fields[7]) is None ==> (decimal_milli(fields[5]) matches Some(milliknots) ==> parsed == (
            Parsed::Speed { speed_cm_s: knots_speed(milliknots as int) as u32, lat_e7: None, lon_e7: None }))
        }),
{
    let rest = lemma_joined_kind(fields, talker, 86, 84, 71);
    law_any_talker_is_read(talker, rest);
    law_fields_come_apart_at_commas(fields, 5);
    law_fields_come_apart_at_commas(fields, 7);
    lemma_empty_fields_read_as_nothing();
}

/// A GGA sentence, field by field: its sixth field is the fix quality, without which it yields nothing; its seventh the
/// satellites, each held to 255; its second to fifth are latitude and longitude, which count exactly where the quality is
/// not zero.
pub proof fn law_gga_is_read_by_its_fields(fields: Seq<Seq<u8>>, talker: Seq<u8>)
    requires
        fields.len() >= 8,
        comma_free(fields),
        fields[0] == talker + seq![71u8, 71, 65],
    ensures
        ({
            let parsed = body_parsed(joined(fields));
            &&& uint_value(fields[6]) is None ==> parsed == Parsed::Nothing
            &&& uint_value(fields[6]) matches Some(quality) ==> {
                &&& parsed matches Parsed::Status { satellites, fix, lat_e7, lon_e7 }
                &&& quality <= 255 ==> fix.raw == quality
                &&& quality > 255 ==> fix.raw == 255
                &&& satellites is Some <==> uint_value(fields[7]) is Some
                &&& uint_value(fields[7]) matches Some(n) ==> (n <= 255 ==> satellites->0 == n) && (n > 255
                    ==> satellites->0 == 255)
                &&& quality == 0 ==> lat_e7 is None && lon_e7 is None
                &&& quality != 0 ==> lat_e7 == coord_e7(fields[2], fields[3]) && lon_e7 == coord_e7(fields[4], fields[5])
            }
        }),
{
    let rest = lemma_joined_kind(fields, talker, 71, 71, 65);
    law_any_talker_is_read(talker, rest);
    law_fields_come_apart_at_commas(fields, 6);
    law_fields_come_apart_at_commas(fields, 7);
    lemma_field_coord(fields, 2, 3);
    lemma_field_coord(fields, 4, 5);
    lemma_empty_fields_read_as_nothing();
}

proof fn lemma_empty_fields_read_as_nothing()
    ensures
        forall|s: Seq<u8>| s.len() == 0 ==> (#[trigger] decimal_milli(s)) is None,
        forall|s: Seq<u8>| s.len() == 0 ==> (#[trigger] uint_value(s)) is None,
{
    assert forall|s: Seq<u8>| s.len() == 0 implies (#[trigger] decimal_milli(s)) is None by {
        ascii::lemma_first_index(s, 0x2e);
    }
}

proof fn lemma_field_coord(fields: Seq<Seq<u8>>, v: nat, h: nat)
    requires
        fields.len() > v,
        fields.len() > h,
        comma_free(fields),
    ensures
        field_coord(joined(fields), v, h) == coord_e7(fields[v as int], fields[h as int]),
{
    law_fields_come_apart_at_commas(fields, v);
    law_fields_come_apart_at_commas(fields, h);
    ascii::lemma_first_index(fields[v as int], 0x2e);
}

/// A line of up to 96 bytes that ends in CR or LF does what its sentence says. A speed makes one fix, with the
/// sentence's own position where it has one and otherwise the one kept; it carries the satellites and quality kept, and
/// changes nothing that is kept. A status replaces all that is kept and makes no fix. Anything else does neither.
pub proof fn law_lines_make_fixes(a: Assembly, line: Seq<u8>, end: u8)
    requires
        a.line.len() == 0,
        !a.overlong,
        0 < line.len() <= 96,
        forall|i: int| 0 <= i < line.len() ==> (#[trigger] line[i]) != 13 && line[i] != 10,
        end == 13 || end == 10,
    ensures
        ({
            let kept = a.after(line.push(end));
            let fixes = a.fixes(line.push(end));
            &&& kept.line.len() == 0 && !kept.overlong
            &&& line_parsed(line) is Nothing ==> kept == a && fixes.len() == 0
            &&& line_parsed(line) matches Parsed::Speed { speed_cm_s, lat_e7, lon_e7 } ==> {
                &&& kept == a
                &&& fixes.len() == 1
                &&& fixes[0].speed_cm_s == speed_cm_s
                &&& fixes[0].satellites == a.satellites
                &&& fixes[0].fix == a.fix
                &&& lat_e7 is Some ==> fixes[0].lat_e7 == lat_e7
                &&& lat_e7 is None ==> fixes[0].lat_e7 == a.lat_e7
                &&& lon_e7 is Some ==> fixes[0].lon_e7 == lon_e7
                &&& lon_e7 is None ==> fixes[0].lon_e7 == a.lon_e7
            }
            &&& line_parsed(line) matches Parsed::Status { satellites, fix, lat_e7, lon_e7 } ==> {
                &&& fixes.len() == 0
                &&& kept.satellites == satellites
                &&& kept.fix == Some(fix)
                &&& kept.lat_e7 == lat_e7
                &&& kept.lon_e7 == lon_e7
            }
        }),
{
    assert forall|i: int| 0 <= i < line.len() implies !is_terminator(#[trigger] line[i]) by {}
    law_terminated_line_is_parsed(a, line, end);
    assert(a.line =~= Seq::<u8>::empty());
}

/// A line of more than 96 bytes is dropped up to the CR or LF that ends it, and a CR or LF alone does nothing.
pub proof fn law_long_and_empty_lines_do_nothing(a: Assembly, line: Seq<u8>, end: u8)
    requires
        a.line.len() == 0,
        !a.overlong,
        line.len() == 0 || line.len() > 96,
        forall|i: int| 0 <= i < line.len() ==> (#[trigger] line[i]) != 13 && line[i] != 10,
        end == 13 || end == 10,
    ensures
        a.after(line.push(end)) == a,
        a.fixes(line.push(end)).len() == 0,
{
    assert forall|i: int| 0 <= i < line.len() implies !is_terminator(#[trigger] line[i]) by {}
    if line.len() > 96 {
        law_overlong_line_is_discarded(a, line, end);
    } else {
        let s = line.push(end);
        assert(s[0] == end);
        assert(s.drop_first() =~= Seq::<u8>::empty());
        assert(a.at_line_start() =~= a);
        reveal_with_fuel(Assembly::after, 2);
        reveal_with_fuel(Assembly::fixes, 2);
    }
}

/// A reader starts with nothing kept.
pub proof fn law_reader_starts_empty()
    ensures
        Assembly::initial().line.len() == 0,
        !Assembly::initial().overlong,
        Assembly::initial().satellites is None,
        Assembly::initial().fix is None,
        Assembly::initial().lat_e7 is None,
        Assembly::initial().lon_e7 is None,
{
}

/// A line yields what its sentence does, whatever stands before the start and behind the checksum, exactly where the
/// checksum is right.
pub proof fn law_checked_line_yields_its_sentence(
    noise: Seq<u8>,
    start: u8,
    body: Seq<u8>,
    hi: u8,
    lo: u8,
    rest: Seq<u8>,
)
    requires
        forall|i: int| 0 <= i < noise.len() ==> (#[trigger] noise[i]) != 0x24 && noise[i] != 0x21,
        start == 0x24 || start == 0x21,
        forall|i: int| 0 <= i < body.len() ==> (#[trigger] body[i]) != 0x2a,
    ensures
        ({
            let line = noise + seq![start] + body + seq![0x2au8, hi, lo] + rest;
            let right = hex_value(hi) is Some && hex_value(lo) is Some && hex_value(hi)->0 * 16 + hex_value(lo)->0
                == xor_all(body);
            &&& right ==> line_parsed(line) == body_parsed(body)
            &&& !right ==> line_parsed(line) == Parsed::Nothing
            &&& line_parsed(noise) == Parsed::Nothing
        }),
{
    law_sentence_lies_between_start_and_star(noise, start, body, hi, lo, rest);
    ascii::lemma_first_index(noise, 0x24);
    ascii::lemma_first_index(noise, 0x21);
}

/// A line without a checksum yields what its sentence does.
pub proof fn law_unchecked_line_yields_its_sentence(noise: Seq<u8>, start: u8, body: Seq<u8>)
    requires
        forall|i: int| 0 <= i < noise.len() ==> (#[trigger] noise[i]) != 0x24 && noise[i] != 0x21,
        start == 0x24 || start == 0x21,
        forall|i: int| 0 <= i < body.len() ==> (#[trigger] body[i]) != 0x2a && body[i] != 13 && body[i] != 10,
    ensures
        line_parsed(noise + seq![start] + body) == body_parsed(body),
{
    law_sentence_without_checksum_is_taken(noise, start, body, 13, Seq::empty());
}

/// A sentence that ends before the field it is read for yields nothing; a VTG sentence that ends before the km/h still
/// yields its knots, and a GGA sentence that ends before the satellites its quality.
pub proof fn law_short_sentences_yield_what_they_hold(fields: Seq<Seq<u8>>, talker: Seq<u8>)
    requires
        0 < fields.len() <= 7,
        comma_free(fields),
    ensures
        fields[0] == talker + seq![82u8, 77, 67] ==> body_parsed(joined(fields)) == Parsed::Nothing,
        fields[0] == talker + seq![71u8, 71, 65] && fields.len() < 7 ==> body_parsed(joined(fields)) == Parsed::Nothing,
        fields[0] == talker + seq![71u8, 71, 65] && fields.len() == 7 ==> (uint_value(fields[6]) is Some <==> body_parsed(
            joined(fields),
        ) is Status) && (body_parsed(joined(fields)) matches Parsed::Status { satellites, fix, lat_e7, lon_e7 }
            ==> satellites is None && (uint_value(fields[6])->0 <= 255 ==> fix.raw == uint_value(fields[6])->0)),
        fields[0] == talker + seq![86u8, 84, 71] && fields.len() < 6 ==> body_parsed(joined(fields)) == Parsed::Nothing,
        fields[0] == talker + seq![86u8, 84, 71] && fields.len() >= 6 ==> (decimal_milli(fields[5]) matches Some(milliknots)
            ==> body_parsed(joined(fields)) == (Parsed::Speed {
            speed_cm_s: knots_speed(milliknots as int) as u32,
            lat_e7: None,
            lon_e7: None,
        })),
{
    law_fields_come_apart_at_commas(fields, 7);
    law_fields_come_apart_at_commas(fields, 6);
    law_fields_come_apart_at_commas(fields, 5);
    lemma_empty_fields_read_as_nothing();
    if fields[0] == talker + seq![82u8, 77, 67] {
        let rest = lemma_joined_kind(fields, talker, 82, 77, 67);
        law_any_talker_is_read(talker, rest);
    }
    if fields[0] == talker + seq![71u8, 71, 65] {
        let rest = lemma_joined_kind(fields, talker, 71, 71, 65);
        law_any_talker_is_read(talker, rest);
    }
    if fields[0] == talker + seq![86u8, 84, 71] {
        let rest = lemma_joined_kind(fields, talker, 86, 84, 71);
        law_any_talker_is_read(talker, rest);
    }
}

} // verus!
