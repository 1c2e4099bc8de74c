//! The two wire messages, in protobuf.
//!
//! Both are made of `uint32` fields only. A field that is zero is not sent, so an all-default message is empty; a
//! field that the reader does not know is skipped. Varints are written and read, and unknown fields skipped, by
//! `micropb`.

use vstd::prelude::*;
use vstd::slice::slice_subrange;

use crate::buffer::ByteBuf;

verus! {

/// Pan/tilt command, goggle to truck.
#[derive(Copy, Clone, Debug, PartialEq, Eq, Structural)]
pub struct Control {
    /// Raw PPM pan pulse width in microseconds.
    pub pan_us: u32,
    /// Raw PPM tilt pulse width in microseconds.
    pub tilt_us: u32,
    /// Requests; bit 0 asks to re-home.
    pub flags: u32,
}

/// Ground speed and navigation, truck to goggle.
#[derive(Copy, Clone, Debug, PartialEq, Eq, Structural)]
pub struct Telemetry {
    /// Ground speed in centimeters per second.
    pub speed_cm_s: u32,
    /// GPS satellites in view.
    pub sats: u32,
    /// GGA fix quality; zero is no fix.
    pub fix_quality: u32,
    /// Distance from the launch point in meters.
    pub dist_m: u32,
    /// Bearing from the launch point in degrees, 0 to 359.
    pub bearing_deg: u32,
    /// Nonzero when distance and bearing mean something.
    pub nav_valid: u32,
}

/// The request to re-home in [`Control::flags`].
pub const FLAG_REHOME: u32 = 1;

/// The most fields a message has.
pub const MAX_FIELDS: usize = 6;

/// How many fields `Control` has.
pub const CONTROL_FIELDS: usize = 3;

/// How many fields `Telemetry` has.
pub const TELEMETRY_FIELDS: usize = 6;

/// The most bytes that an encoded `Control` takes: a tag and up to five bytes per field.
pub const CONTROL_MAX_LEN: usize = 18;

/// The most bytes that an encoded `Telemetry` takes.
pub const TELEMETRY_MAX_LEN: usize = 36;

// ---------------------------------------------------------------------------------------------------------------
// Varints
// ---------------------------------------------------------------------------------------------------------------

/// A number as a varint: seven bits per byte, the low ones first, the high bit set on all but the last byte.
pub open spec fn varint_bytes(v: nat) -> Seq<u8>
    decreases v,
{
    if v < 128 {
        seq![v as u8]
    } else {
        seq![(128 + v % 128) as u8] + varint_bytes(v / 128)
    }
}

/// How many bytes the varint at the start of `bytes` takes: up to the first without its high bit. One more than
/// there are bytes when it does not end.
pub open spec fn varint_len(bytes: Seq<u8>) -> nat
    decreases bytes.len(),
{
    if bytes.len() == 0 || bytes[0] < 128 {
        1
    } else {
        1 + varint_len(bytes.drop_first())
    }
}

/// The number that the bytes of a varint write.
pub open spec fn varint_sum(bytes: Seq<u8>) -> nat
    decreases bytes.len(),
{
    if bytes.len() == 0 {
        0
    } else {
        (bytes[0] % 128) as nat + 128 * varint_sum(bytes.drop_first())
    }
}

/// The varint at the start of `bytes`: its number, cut to 32 bits, and how many bytes it takes. `None` where it does
/// not end within the bytes, or within ten.
pub open spec fn varint_at(bytes: Seq<u8>) -> Option<(u32, usize)> {
    let n = varint_len(bytes);
    if n <= bytes.len() && n <= 10 {
        Some(((varint_sum(bytes.take(n as int)) % 0x1_0000_0000) as u32, n as usize))
    } else {
        None
    }
}

/// How many bytes the value at the start of `bytes` takes: a varint (wire type 0), eight bytes (1), a length and
/// that many bytes (2) or four bytes (5). `None` where it does not end, or is of any other type.
pub open spec fn value_len(bytes: Seq<u8>, wire_type: u8) -> Option<usize> {
    let n = if wire_type == 0 {
        match varint_at(bytes) {
            Some((_, n)) => Some(n as nat),
            None => None,
        }
    } else if wire_type == 1 {
        Some(8)
    } else if wire_type == 2 {
        match varint_at(bytes) {
            Some((len, n)) => Some((n + len) as nat),
            None => None,
        }
    } else if wire_type == 5 {
        Some(4)
    } else {
        None
    };
    match n {
        Some(n) => if n <= bytes.len() {
            Some(n as usize)
        } else {
            None
        },
        None => None,
    }
}

/// `micropb::PbEncoder::encode_varint32`: the bytes it writes for `v`, at most five.
#[verifier::external_body]
fn encode_varint32(v: u32) -> (bytes: Vec<u8>)
    ensures
        bytes@ == varint_bytes(v as nat),
{
    let mut encoder = micropb::PbEncoder::new(heapless::Vec::<u8, 5>::new());
    let _ = encoder.encode_varint32(v);
    encoder.into_writer().as_slice().to_vec()
}

/// `micropb::PbDecoder::decode_varint32` on a byte slice: the number it returns and how far it has read; `None` for
/// its error.
#[verifier::external_body]
fn decode_varint32(bytes: &[u8]) -> (r: Option<(u32, usize)>)
    ensures
        r == varint_at(bytes@),
{
    let mut decoder = micropb::PbDecoder::new(bytes);
    let value = decoder.decode_varint32().ok()?;
    Some((value, decoder.bytes_read()))
}

/// `micropb::PbDecoder::skip_wire_value` on a byte slice: how far it has read; `None` for its error.
#[verifier::external_body]
fn skip_wire_value(bytes: &[u8], wire_type: u8) -> (r: Option<usize>)
    ensures
        r == value_len(bytes@, wire_type),
{
    let mut decoder = micropb::PbDecoder::new(bytes);
    decoder.skip_wire_value(wire_type).ok()?;
    Some(decoder.bytes_read())
}

// ---------------------------------------------------------------------------------------------------------------
// Fields
// ---------------------------------------------------------------------------------------------------------------

/// The wire form of field `number` (from 1): nothing for zero, else its tag and its value.
pub open spec fn field_bytes(number: int, value: u32) -> Seq<u8> {
    if value == 0 {
        Seq::empty()
    } else {
        varint_bytes((number * 8) as nat) + varint_bytes(value as nat)
    }
}

/// The wire form of the first `n` fields, in order.
pub open spec fn fields_bytes(values: Seq<u32>, n: nat) -> Seq<u8>
    decreases n,
{
    if n == 0 {
        Seq::empty()
    } else {
        fields_bytes(values, (n - 1) as nat) + field_bytes(n as int, values[n - 1])
    }
}

/// What a message holds after reading `bytes` on top of `values`: each known field (1 to `known`) takes the last value
/// sent for it, any other is skipped. `None` on a malformed message.
pub open spec fn fields_read(values: Seq<u32>, known: nat, bytes: Seq<u8>) -> Option<Seq<u32>>
    decreases bytes.len(),
{
    if bytes.len() == 0 {
        Some(values)
    } else {
        match varint_at(bytes) {
            None => None,
            Some((tag, n)) => {
                proof {
                    lemma_varint_len(bytes);
                }
                let number = tag / 8;
                let rest = bytes.skip(n as int);
                if number == 0 {
                    None
                } else if number <= known {
                    match varint_at(rest) {
                        None => None,
                        Some((value, m)) => fields_read(values.update(number - 1, value), known, rest.skip(m as int)),
                    }
                } else {
                    match value_len(rest, (tag % 8) as u8) {
                        None => None,
                        Some(m) => fields_read(values, known, rest.skip(m as int)),
                    }
                }
            },
        }
    }
}

/// A varint takes at least one byte.
pub proof fn lemma_varint_len(bytes: Seq<u8>)
    ensures
        1 <= varint_len(bytes) <= bytes.len() + 1,
    decreases bytes.len(),
{
    if bytes.len() > 0 && bytes[0] >= 128 {
        lemma_varint_len(bytes.drop_first());
    }
}

/// Appends one field to `out`; `Err` where it does not fit.
fn write_field(out: &mut ByteBuf, number: u32, value: u32) -> (done: Result<(), ()>)
    requires
        1 <= number <= 6,
    ensures
        final(out).spec_capacity() == old(out).spec_capacity(),
        done is Ok <==> old(out)@.len() + field_bytes(number as int, value).len() <= old(out).spec_capacity(),
        done is Ok ==> final(out)@ == old(out)@ + field_bytes(number as int, value),
{
    if value == 0 {
        let _ = out.len();
        proof {
            assert(out@ + Seq::<u8>::empty() =~= out@);
        }
        return Ok(());
    }
    let tag = encode_varint32(number * 8);
    let body = encode_varint32(value);
    let fits = out.extend_from_slice(tag.as_slice());
    if fits.is_err() {
        return fits;
    }
    let fits = out.extend_from_slice(body.as_slice());
    proof {
        assert(old(out)@ + tag@ + body@ =~= old(out)@ + field_bytes(number as int, value));
    }
    fits
}

proof fn lemma_fields_grow(values: Seq<u32>, i: nat, n: nat)
    requires
        i <= n,
    ensures
        fields_bytes(values, i).len() <= fields_bytes(values, n).len(),
    decreases n,
{
    if i < n {
        lemma_fields_grow(values, i, (n - 1) as nat);
    }
}

/// Writes the first `n` fields to an emptied `out`; `Err`, and nothing in `out`, exactly where they do not all fit.
fn write_fields(values: &[u32; 6], n: usize, out: &mut ByteBuf) -> (done: Result<(), ()>)
    requires
        n <= MAX_FIELDS,
    ensures
        final(out).spec_capacity() == old(out).spec_capacity(),
        done is Ok <==> fields_bytes(values@, n as nat).len() <= old(out).spec_capacity(),
        done is Ok ==> final(out)@ == fields_bytes(values@, n as nat),
        done is Err ==> final(out)@ == Seq::<u8>::empty(),
{
    out.clear();
    let mut i: usize = 0;
    while i < n
        invariant
            i <= n <= MAX_FIELDS,
            out.spec_capacity() == old(out).spec_capacity(),
            out@ == fields_bytes(values@, i as nat),
            i > 0 ==> out@.len() <= out.spec_capacity(),
        decreases n - i,
    {
        proof {
            lemma_fields_grow(values@, (i + 1) as nat, n as nat);
        }
        if write_field(out, i as u32 + 1, values[i]).is_err() {
            out.clear();
            return Err(());
        }
        i += 1;
    }
    let _ = out.len();
    Ok(())
}

/// Reads a message on top of `values`; `None` on a malformed one.
fn read_fields(values: [u32; 6], known: usize, bytes: &[u8]) -> (r: Option<[u32; 6]>)
    requires
        known <= MAX_FIELDS,
    ensures
        r matches Some(v) ==> fields_read(values@, known as nat, bytes@) == Some(v@),
        r is None ==> fields_read(values@, known as nat, bytes@) is None,
{
    let mut values_now = values;
    let mut rest = bytes;
    while rest.len() > 0
        invariant
            known <= MAX_FIELDS,
            fields_read(values_now@, known as nat, rest@) == fields_read(values@, known as nat, bytes@),
        decreases rest@.len(),
    {
        proof {
            lemma_varint_len(rest@);
        }
        let (tag, n) = decode_varint32(rest)?;
        let body = slice_subrange(rest, n, rest.len());
        proof {
            assert(body@ =~= rest@.skip(n as int));
            lemma_varint_len(body@);
        }
        let number: u32 = tag / 8;
        if number == 0 {
            return None;
        }
        let m: usize;
        if number as usize <= known {
            let (value, len) = decode_varint32(body)?;
            values_now[number as usize - 1] = value;
            m = len;
        } else {
            m = skip_wire_value(body, (tag % 8) as u8)?;
        }
        let next = slice_subrange(body, m, body.len());
        proof {
            assert(next@ =~= body@.skip(m as int));
        }
        rest = next;
    }
    Some(values_now)
}

// ---------------------------------------------------------------------------------------------------------------
// Messages
// ---------------------------------------------------------------------------------------------------------------

impl Control {
    /// The fields, by number from 1.
    pub open spec fn fields(self) -> Seq<u32> {
        seq![self.pan_us, self.tilt_us, self.flags, 0, 0, 0]
    }

    /// The wire form.
    pub open spec fn wire(self) -> Seq<u8> {
        fields_bytes(self.fields(), 3)
    }

    /// Writes the wire form to an emptied `out`; `Err`, and nothing in `out`, exactly where it does not fit.
    /// [`CONTROL_MAX_LEN`] bytes hold any `Control`.
    pub fn encode(&self, out: &mut ByteBuf) -> (done: Result<(), ()>)
        ensures
            final(out).spec_capacity() == old(out).spec_capacity(),
            done is Ok <==> self.wire().len() <= old(out).spec_capacity(),
            done is Ok ==> final(out)@ == self.wire(),
            done is Err ==> final(out)@ == Seq::<u8>::empty(),
            old(out).spec_capacity() >= CONTROL_MAX_LEN ==> done is Ok,
    {
        let values: [u32; 6] = [self.pan_us, self.tilt_us, self.flags, 0, 0, 0];
        proof {
            assert(values@ =~= self.fields());
            lemma_fields_len(values@, 3);
        }
        write_fields(&values, CONTROL_FIELDS, out)
    }

    /// Reads a message on top of this one, so that a field that was not sent keeps its value. `Err`, and nothing
    /// changed, on a malformed message.
    pub fn decode_from_bytes(&mut self, bytes: &[u8]) -> (done: Result<(), ()>)
        ensures
            done is Ok <==> fields_read(old(self).fields(), 3, bytes@) is Some,
            done is Ok ==> fields_read(old(self).fields(), 3, bytes@) == Some(final(self).fields()),
            done is Err ==> *final(self) == *old(self),
    {
        let values: [u32; 6] = [self.pan_us, self.tilt_us, self.flags, 0, 0, 0];
        proof {
            assert(values@ =~= self.fields());
        }
        match read_fields(values, CONTROL_FIELDS, bytes) {
            Some(v) => {
                self.pan_us = v[0];
                self.tilt_us = v[1];
                self.flags = v[2];
                proof {
                    lemma_unknown_untouched(values@, 3, bytes@);
                    assert(v@ =~= self.fields());
                }
                Ok(())
            },
            None => Err(()),
        }
    }
}

/// What a message reads as on its own, fields that were not sent being zero.
pub open spec fn control_in(bytes: Seq<u8>) -> Option<Control> {
    match fields_read(seq![0u32, 0, 0, 0, 0, 0], 3, bytes) {
        Some(v) => Some(Control { pan_us: v[0], tilt_us: v[1], flags: v[2] }),
        None => None,
    }
}

/// Reads a `Control` on its own; `None` on a malformed message.
pub fn read_control(bytes: &[u8]) -> (control: Option<Control>)
    ensures
        control == control_in(bytes@),
{
    let mut control = Control::default();
    if control.decode_from_bytes(bytes).is_ok() {
        Some(control)
    } else {
        None
    }
}

/// What a message reads as on its own, fields that were not sent being zero.
pub open spec fn telemetry_in(bytes: Seq<u8>) -> Option<Telemetry> {
    match fields_read(seq![0u32, 0, 0, 0, 0, 0], 6, bytes) {
        Some(v) => Some(
            Telemetry {
                speed_cm_s: v[0],
                sats: v[1],
                fix_quality: v[2],
                dist_m: v[3],
                bearing_deg: v[4],
                nav_valid: v[5],
            },
        ),
        None => None,
    }
}

/// Reads a `Telemetry` on its own; `None` on a malformed message.
pub fn read_telemetry(bytes: &[u8]) -> (telemetry: Option<Telemetry>)
    ensures
        telemetry == telemetry_in(bytes@),
{
    let mut telemetry = Telemetry::default();
    if telemetry.decode_from_bytes(bytes).is_ok() {
        Some(telemetry)
    } else {
        None
    }
}

impl Default for Control {
    fn default() -> (control: Self)
        ensures
            control == (Control { pan_us: 0, tilt_us: 0, flags: 0 }),
    {
        Control { pan_us: 0, tilt_us: 0, flags: 0 }
    }
}

impl Telemetry {
    /// The fields, by number from 1.
    pub open spec fn fields(self) -> Seq<u32> {
        seq![self.speed_cm_s, self.sats, self.fix_quality, self.dist_m, self.bearing_deg, self.nav_valid]
    }

    /// The wire form.
    pub open spec fn wire(self) -> Seq<u8> {
        fields_bytes(self.fields(), 6)
    }

    /// Writes the wire form to an emptied `out`; `Err`, and nothing in `out`, exactly where it does not fit.
    /// [`TELEMETRY_MAX_LEN`] bytes hold any `Telemetry`.
    pub fn encode(&self, out: &mut ByteBuf) -> (done: Result<(), ()>)
        ensures
            final(out).spec_capacity() == old(out).spec_capacity(),
            done is Ok <==> self.wire().len() <= old(out).spec_capacity(),
            done is Ok ==> final(out)@ == self.wire(),
            done is Err ==> final(out)@ == Seq::<u8>::empty(),
            old(out).spec_capacity() >= TELEMETRY_MAX_LEN ==> done is Ok,
    {
        let values: [u32; 6] = [
            self.speed_cm_s,
            self.sats,
            self.fix_quality,
            self.dist_m,
            self.bearing_deg,
            self.nav_valid,
        ];
        proof {
            assert(values@ =~= self.fields());
            lemma_fields_len(values@, 6);
        }
        write_fields(&values, TELEMETRY_FIELDS, out)
    }

    /// Reads a message on top of this one, so that a field that was not sent keeps its value. `Err`, and nothing
    /// changed, on a malformed message.
    pub fn decode_from_bytes(&mut self, bytes: &[u8]) -> (done: Result<(), ()>)
        ensures
            done is Ok <==> fields_read(old(self).fields(), 6, bytes@) is Some,
            done is Ok ==> fields_read(old(self).fields(), 6, bytes@) == Some(final(self).fields()),
            done is Err ==> *final(self) == *old(self),
    {
        let values: [u32; 6] = [
            self.speed_cm_s,
            self.sats,
            self.fix_quality,
            self.dist_m,
            self.bearing_deg,
            self.nav_valid,
        ];
        proof {
            assert(values@ =~= self.fields());
        }
        match read_fields(values, TELEMETRY_FIELDS, bytes) {
            Some(v) => {
                self.speed_cm_s = v[0];
                self.sats = v[1];
                self.fix_quality = v[2];
                self.dist_m = v[3];
                self.bearing_deg = v[4];
                self.nav_valid = v[5];
                proof {
                    assert(v@ =~= self.fields());
                }
                Ok(())
            },
            None => Err(()),
        }
    }
}

impl Default for Telemetry {
    fn default() -> (telemetry: Self)
        ensures
            telemetry == (Telemetry {
                speed_cm_s: 0,
                sats: 0,
                fix_quality: 0,
                dist_m: 0,
                bearing_deg: 0,
                nav_valid: 0,
            }),
    {
        Telemetry { speed_cm_s: 0, sats: 0, fix_quality: 0, dist_m: 0, bearing_deg: 0, nav_valid: 0 }
    }
}

/// Reading changes none but the known fields, and keeps their number.
proof fn lemma_unknown_untouched(values: Seq<u32>, known: nat, bytes: Seq<u8>)
    requires
        known <= values.len(),
    ensures
        fields_read(values, known, bytes) matches Some(v) ==> v.len() == values.len() && forall|i: int|
            known <= i < values.len() ==> v[i] == values[i],
    decreases bytes.len(),
{
    if bytes.len() > 0 {
        lemma_varint_len(bytes);
        if let Some((tag, n)) = varint_at(bytes) {
            let number = tag / 8;
            let rest = bytes.skip(n as int);
            lemma_varint_len(rest);
            if number == 0 {
            } else if number <= known {
                if let Some((value, m)) = varint_at(rest) {
                    lemma_unknown_untouched(values.update(number - 1, value), known, rest.skip(m as int));
                }
            } else if let Some(m) = value_len(rest, (tag % 8) as u8) {
                lemma_unknown_untouched(values, known, rest.skip(m as int));
            }
        }
    }
}

/// A 32-bit number takes one to five bytes, and reads back as itself whatever follows it.
proof fn lemma_varint_round_trip(v: u32, rest: Seq<u8>)
    ensures
        1 <= varint_bytes(v as nat).len() <= 5,
        varint_at(varint_bytes(v as nat) + rest) == Some((v, varint_bytes(v as nat).len() as usize)),
{
    let bytes = varint_bytes(v as nat);
    reveal_with_fuel(pow128, 6);
    lemma_varint_parts(v as nat, 5, rest);
    assert((bytes + rest).take(bytes.len() as int) =~= bytes);
}

proof fn lemma_varint_parts(v: nat, k: nat, rest: Seq<u8>)
    requires
        k >= 1,
        v < pow128(k),
    ensures
        1 <= varint_bytes(v).len() <= k,
        varint_len(varint_bytes(v) + rest) == varint_bytes(v).len(),
        varint_sum(varint_bytes(v)) == v,
    decreases v,
{
    reveal_with_fuel(pow128, 2);
    if v < 128 {
        assert((varint_bytes(v) + rest)[0] == v);
        assert(varint_bytes(v).drop_first() =~= Seq::<u8>::empty());
        assert(varint_sum(Seq::<u8>::empty()) == 0);
        assert(varint_bytes(v)[0] % 128 == v);
    } else {
        assert(k > 1) by {
            reveal_with_fuel(pow128, 3);
        }
        lemma_varint_parts(v / 128, (k - 1) as nat, rest);
        assert((varint_bytes(v) + rest).drop_first() =~= varint_bytes(v / 128) + rest);
        assert((varint_bytes(v) + rest)[0] == 128 + v % 128);
        assert(varint_bytes(v).drop_first() =~= varint_bytes(v / 128));
        assert(varint_bytes(v)[0] == 128 + v % 128);
        assert((128 + v % 128) % 128 == v % 128);
    }
}

spec fn pow128(k: nat) -> nat
    decreases k,
{
    if k == 0 {
        1
    } else {
        128 * pow128((k - 1) as nat)
    }
}

proof fn lemma_fields_len(values: Seq<u32>, n: nat)
    requires
        n <= 6,
        n <= values.len(),
    ensures
        fields_bytes(values, n).len() <= 6 * n,
    decreases n,
{
    if n > 0 {
        lemma_fields_len(values, (n - 1) as nat);
        reveal_with_fuel(pow128, 6);
        lemma_varint_parts(values[n - 1] as nat, 5, Seq::empty());
        assert(varint_bytes((n * 8) as nat).len() == 1);
    }
}

// ---------------------------------------------------------------------------------------------------------------
// Laws
// ---------------------------------------------------------------------------------------------------------------

/// Behind the tag of a field, the value of a known one is taken and that of any other is skipped.
proof fn lemma_field_step(values: Seq<u32>, known: nat, number: u32, kind: u32, tail: Seq<u8>)
    requires
        1 <= number < 0x2000_0000,
        kind < 8,
    ensures
        fields_read(values, known, varint_bytes((number * 8 + kind) as nat) + tail) == (if number <= known {
            match varint_at(tail) {
                None => None,
                Some((value, m)) => fields_read(values.update(number - 1, value), known, tail.skip(m as int)),
            }
        } else {
            match value_len(tail, kind as u8) {
                None => None,
                Some(m) => fields_read(values, known, tail.skip(m as int)),
            }
        }),
{
    let t = (number * 8 + kind) as u32;
    let tag = varint_bytes(t as nat);
    lemma_varint_round_trip(t, tail);
    assert((tag + tail).skip(tag.len() as int) =~= tail);
    assert(t / 8 == number);
    assert((t % 8) as u8 == kind as u8);
}

/// What one nonzero field writes, followed by `rest`, reads as that field set, then `rest`.
proof fn lemma_field_round_trip(values: Seq<u32>, known: nat, number: u32, value: u32, rest: Seq<u8>)
    requires
        1 <= number <= known <= 6,
        value != 0,
    ensures
        fields_read(values, known, field_bytes(number as int, value) + rest) == fields_read(
            values.update(number - 1, value),
            known,
            rest,
        ),
{
    let tag = varint_bytes((number * 8) as nat);
    let body = varint_bytes(value as nat);
    assert(field_bytes(number as int, value) + rest =~= tag + (body + rest));
    lemma_field_step(values, known, number, 0, body + rest);
    lemma_varint_round_trip(value, rest);
    assert((body + rest).skip(body.len() as int) =~= rest);
}

/// What the first `n` fields write, followed by `rest`, reads as those fields set on top of `base`, then `rest`.
proof fn lemma_fields_round_trip(base: Seq<u32>, values: Seq<u32>, known: nat, n: nat, rest: Seq<u8>)
    requires
        n <= known <= 6,
        base.len() == values.len() == 6,
        forall|i: int| 0 <= i < 6 ==> base[i] == 0,
    ensures
        fields_read(base, known, fields_bytes(values, n) + rest) == fields_read(
            Seq::new(6, |i: int| if i < n { values[i] } else { 0 }),
            known,
            rest,
        ),
    decreases n,
{
    let now = Seq::new(6, |i: int| if i < n { values[i] } else { 0u32 });
    if n == 0 {
        assert(fields_bytes(values, n) + rest =~= rest);
        assert(now =~= base);
    } else {
        let before = Seq::new(6, |i: int| if i < n - 1 { values[i] } else { 0u32 });
        let value = values[n - 1];
        let field = field_bytes(n as int, value);
        assert(fields_bytes(values, n) + rest =~= fields_bytes(values, (n - 1) as nat) + (field + rest));
        lemma_fields_round_trip(base, values, known, (n - 1) as nat, field + rest);
        if value == 0 {
            assert(field + rest =~= rest);
            assert(now =~= before);
        } else {
            lemma_field_round_trip(before, known, n as u32, value, rest);
            assert(before.update(n - 1, value) =~= now);
        }
    }
}

/// A `Control` reads back as it was written.
pub proof fn law_control_round_trips(c: Control)
    ensures
        control_in(c.wire()) == Some(c),
        c.wire().len() <= CONTROL_MAX_LEN,
{
    let base = seq![0u32, 0, 0, 0, 0, 0];
    lemma_fields_len(c.fields(), 3);
    lemma_fields_round_trip(base, c.fields(), 3, 3, Seq::empty());
    assert(c.wire() + Seq::<u8>::empty() =~= c.wire());
    assert(Seq::new(6, |i: int| if i < 3 { c.fields()[i] } else { 0u32 }) =~= c.fields());
}

/// A `Telemetry` reads back as it was written.
pub proof fn law_telemetry_round_trips(t: Telemetry)
    ensures
        telemetry_in(t.wire()) == Some(t),
        t.wire().len() <= TELEMETRY_MAX_LEN,
{
    let base = seq![0u32, 0, 0, 0, 0, 0];
    lemma_fields_len(t.fields(), 6);
    lemma_fields_round_trip(base, t.fields(), 6, 6, Seq::empty());
    assert(t.wire() + Seq::<u8>::empty() =~= t.wire());
    assert(Seq::new(6, |i: int| if i < 6 { t.fields()[i] } else { 0u32 }) =~= t.fields());
}

/// A message whose every field is zero takes no bytes at all.
pub proof fn law_default_messages_are_empty()
    ensures
        (Control { pan_us: 0, tilt_us: 0, flags: 0 }).wire() == Seq::<u8>::empty(),
        (Telemetry { speed_cm_s: 0, sats: 0, fix_quality: 0, dist_m: 0, bearing_deg: 0, nav_valid: 0 }).wire()
            == Seq::<u8>::empty(),
{
    reveal_with_fuel(fields_bytes, 7);
    assert((Control { pan_us: 0, tilt_us: 0, flags: 0 }).wire() =~= Seq::<u8>::empty());
    assert((Telemetry {
        speed_cm_s: 0,
        sats: 0,
        fix_quality: 0,
        dist_m: 0,
        bearing_deg: 0,
        nav_valid: 0,
    }).wire() =~= Seq::<u8>::empty());
}

/// A varint writes a number in base 128, the low digit first: every byte but the last has its high bit set, the last is no
/// needless zero, and the digits add up to the number. It takes as many bytes as the number has such digits.
pub proof fn law_varints_are_base_128(v: nat, i: int)
    requires
        0 <= i < varint_bytes(v).len(),
    ensures
        varint_bytes(v)[0] % 128 == v % 128,
        i + 1 < varint_bytes(v).len() ==> varint_bytes(v)[i] >= 128,
        i + 1 == varint_bytes(v).len() ==> varint_bytes(v)[i] < 128,
        varint_bytes(v).len() > 1 ==> varint_bytes(v).last() != 0,
        v < 128 ==> varint_bytes(v) == seq![v as u8],
        v >= 128 ==> varint_bytes(v).drop_first() == varint_bytes(v / 128),
    decreases v,
{
    if v >= 128 {
        let rest = varint_bytes(v / 128);
        assert(varint_bytes(v).drop_first() =~= rest);
        lemma_varint_nonempty(v / 128);
        if i > 0 {
            law_varints_are_base_128(v / 128, i - 1);
        } else {
            law_varints_are_base_128(v / 128, 0);
        }
        assert(varint_bytes(v).last() == rest.last());
    }
}

proof fn lemma_varint_nonempty(v: nat)
    ensures
        varint_bytes(v).len() > 0,
{
}

/// Any 32-bit number reads back as itself, whatever follows it, and takes no more than five bytes.
pub proof fn law_varints_read_back(v: u32, rest: Seq<u8>)
    ensures
        varint_at(varint_bytes(v as nat) + rest) == Some((v, varint_bytes(v as nat).len() as usize)),
        1 <= varint_bytes(v as nat).len() <= 5,
{
    lemma_varint_round_trip(v, rest);
}

/// On the wire a command is up to three fields: pan under tag 8, tilt under tag 16, flags under tag 24, each only where it
/// is not zero, in this order.
pub proof fn law_control_wire_layout(c: Control)
    ensures
        ({
            let pan = if c.pan_us == 0 {
                Seq::empty()
            } else {
                seq![8u8] + varint_bytes(c.pan_us as nat)
            };
            let tilt = if c.tilt_us == 0 {
                Seq::empty()
            } else {
                seq![16u8] + varint_bytes(c.tilt_us as nat)
            };
            let flags = if c.flags == 0 {
                Seq::empty()
            } else {
                seq![24u8] + varint_bytes(c.flags as nat)
            };
            c.wire() == pan + tilt + flags
        }),
{
    reveal_with_fuel(fields_bytes, 4);
    assert(varint_bytes(8) =~= seq![8u8]);
    assert(varint_bytes(16) =~= seq![16u8]);
    assert(varint_bytes(24) =~= seq![24u8]);
    let f = c.fields();
    assert(f[0] == c.pan_us && f[1] == c.tilt_us && f[2] == c.flags);
    assert(c.wire() =~= field_bytes(1, f[0]) + field_bytes(2, f[1]) + field_bytes(3, f[2]));
}

/// On the wire telemetry is up to six fields under the tags 8 to 48, each only where it is not zero: speed, satellites, fix
/// quality, distance, bearing and whether the last two are valid.
pub proof fn law_telemetry_wire_layout(t: Telemetry)
    ensures
        t.wire() == (if t.speed_cm_s == 0 {
            Seq::empty()
        } else {
            seq![8u8] + varint_bytes(t.speed_cm_s as nat)
        }) + (if t.sats == 0 {
            Seq::empty()
        } else {
            seq![16u8] + varint_bytes(t.sats as nat)
        }) + (if t.fix_quality == 0 {
            Seq::empty()
        } else {
            seq![24u8] + varint_bytes(t.fix_quality as nat)
        }) + (if t.dist_m == 0 {
            Seq::empty()
        } else {
            seq![32u8] + varint_bytes(t.dist_m as nat)
        }) + (if t.bearing_deg == 0 {
            Seq::empty()
        } else {
            seq![40u8] + varint_bytes(t.bearing_deg as nat)
        }) + (if t.nav_valid == 0 {
            Seq::empty()
        } else {
            seq![48u8] + varint_bytes(t.nav_valid as nat)
        }),
{
    reveal_with_fuel(fields_bytes, 7);
    assert(varint_bytes(8) =~= seq![8u8]);
    assert(varint_bytes(16) =~= seq![16u8]);
    assert(varint_bytes(24) =~= seq![24u8]);
    assert(varint_bytes(32) =~= seq![32u8]);
    assert(varint_bytes(40) =~= seq![40u8]);
    assert(varint_bytes(48) =~= seq![48u8]);
    let f = t.fields();
    assert(f[0] == t.speed_cm_s && f[1] == t.sats && f[2] == t.fix_quality);
    assert(f[3] == t.dist_m && f[4] == t.bearing_deg && f[5] == t.nav_valid);
    assert(t.wire() =~= field_bytes(1, f[0]) + field_bytes(2, f[1]) + field_bytes(3, f[2]) + field_bytes(4, f[3])
        + field_bytes(5, f[4]) + field_bytes(6, f[5]));
}

/// Reading goes field by field: one that is known takes the value sent for it, so that the last one sent counts; one that
/// is not is skipped; then the rest is read. Nothing left means done.
pub proof fn law_fields_are_read_in_turn(values: Seq<u32>, known: nat, number: u32, value: u32, rest: Seq<u8>)
    requires
        1 <= number < 0x2000_0000,
        known <= 6,
        values.len() == 6,
    ensures
        ({
            let bytes = varint_bytes((number * 8) as nat) + varint_bytes(value as nat) + rest;
            &&& number <= known ==> fields_read(values, known, bytes) == fields_read(
                values.update(number - 1, value),
                known,
                rest,
            )
            &&& number > known ==> fields_read(values, known, bytes) == fields_read(values, known, rest)
            &&& fields_read(values, known, Seq::empty()) == Some(values)
        }),
{
    let tag = varint_bytes((number * 8) as nat);
    let body = varint_bytes(value as nat);
    assert(tag + body + rest =~= tag + (body + rest));
    lemma_field_step(values, known, number, 0, body + rest);
    lemma_varint_round_trip(value, rest);
    assert((body + rest).skip(body.len() as int) =~= rest);
}

/// A message that ends in the middle of a tag or of a value, and one with a field number of zero, is malformed.
pub proof fn law_cut_messages_are_malformed(values: Seq<u32>, known: nat, number: u32, value: u32, cut: int)
    requires
        1 <= number <= known <= 6,
        values.len() == 6,
        0 < cut < varint_bytes((number * 8) as nat).len() + varint_bytes(value as nat).len(),
    ensures
        fields_read(values, known, (varint_bytes((number * 8) as nat) + varint_bytes(value as nat)).take(cut)) is None,
        fields_read(values, known, seq![(value % 8) as u8]) is None,
{
    let tag = varint_bytes((number * 8) as nat);
    let body = varint_bytes(value as nat);
    assert(tag =~= seq![(number * 8) as u8]);
    let rest = body.take(cut - 1);
    assert((tag + body).take(cut) =~= tag + rest);
    lemma_field_step(values, known, number, 0, rest);
    lemma_cut_varint(value as nat, cut - 1);
    let zero = seq![(value % 8) as u8];
    assert(varint_bytes((value % 8) as nat) =~= zero);
    lemma_varint_round_trip((value % 8) as u32, Seq::empty());
    assert(zero + Seq::<u8>::empty() =~= zero);
}

proof fn lemma_cut_varint(v: nat, cut: int)
    requires
        0 <= cut < varint_bytes(v).len(),
    ensures
        varint_at(varint_bytes(v).take(cut)) is None,
{
    lemma_cut_varint_len(v, cut);
}

proof fn lemma_cut_varint_len(v: nat, cut: int)
    requires
        0 <= cut < varint_bytes(v).len(),
    ensures
        varint_len(varint_bytes(v).take(cut)) == cut + 1,
    decreases v,
{
    if cut > 0 {
        let s = varint_bytes(v).take(cut);
        assert(v >= 128);
        assert(s[0] == varint_bytes(v)[0]);
        assert(varint_bytes(v)[0] >= 128);
        assert(varint_bytes(v).drop_first() =~= varint_bytes(v / 128));
        assert(s.drop_first() =~= varint_bytes(v / 128).take(cut - 1));
        lemma_cut_varint_len(v / 128, cut - 1);
    }
}

/// What a message reads as starts from all zeros: a command takes the first three fields, telemetry all six, each by its
/// number.
pub proof fn law_messages_are_their_fields(bytes: Seq<u8>)
    ensures
        ({
            let zeros = Seq::new(6, |i: int| 0u32);
            &&& fields_read(zeros, 3, bytes) is None <==> control_in(bytes) is None
            &&& control_in(bytes) matches Some(c) ==> fields_read(zeros, 3, bytes) matches Some(v) && v[0] == c.pan_us && v[1]
                == c.tilt_us && v[2] == c.flags
            &&& fields_read(zeros, 6, bytes) is None <==> telemetry_in(bytes) is None
            &&& telemetry_in(bytes) matches Some(t) ==> fields_read(zeros, 6, bytes) matches Some(v) && v[0] == t.speed_cm_s
                && v[1] == t.sats && v[2] == t.fix_quality && v[3] == t.dist_m && v[4] == t.bearing_deg && v[5] == t.nav_valid
        }),
{
    assert(Seq::new(6, |i: int| 0u32) =~= seq![0u32, 0, 0, 0, 0, 0]);
}

/// A number of up to 64 bits reads as its low 32, whatever follows it.
pub proof fn law_wide_varints_are_cut(v: u64, rest: Seq<u8>)
    ensures
        varint_at(varint_bytes(v as nat) + rest) == Some((v as u32, varint_bytes(v as nat).len() as usize)),
        varint_bytes(v as nat).len() <= 10,
{
    let bytes = varint_bytes(v as nat);
    reveal_with_fuel(pow128, 11);
    lemma_varint_parts(v as nat, 10, rest);
    assert((bytes + rest).take(bytes.len() as int) =~= bytes);
    assert(v as u32 == v % 0x1_0000_0000) by (bit_vector);
}

/// A field that is not known is skipped whatever its type: eight bytes, four bytes, or a length and as many bytes; a field
/// of any other type is malformed.
pub proof fn law_unknown_fields_are_skipped(values: Seq<u32>, known: nat, number: u32, kind: u32, body: Seq<u8>, rest: Seq<u8>)
    requires
        known < number < 0x2000_0000,
        known <= 6,
        values.len() == 6,
        kind < 8,
        body.len() + rest.len() < 0x1000_0000,
    ensures
        ({
            let tag = varint_bytes((number * 8 + kind) as nat);
            let len = varint_bytes(body.len());
            let skipped = fields_read(values, known, rest);
            &&& kind == 1 && body.len() == 8 ==> fields_read(values, known, tag + body + rest) == skipped
            &&& kind == 5 && body.len() == 4 ==> fields_read(values, known, tag + body + rest) == skipped
            &&& kind == 2 ==> fields_read(values, known, tag + len + body + rest) == skipped
            &&& kind == 3 || kind == 4 || kind >= 6 ==> fields_read(values, known, tag + body + rest) is None
        }),
{
    let tag = varint_bytes((number * 8 + kind) as nat);
    let len = varint_bytes(body.len());
    let plain = body + rest;
    let sized = len + body + rest;
    assert(tag + body + rest =~= tag + plain);
    assert(tag + len + body + rest =~= tag + sized);
    lemma_field_step(values, known, number, kind, plain);
    lemma_field_step(values, known, number, kind, sized);
    assert(plain.skip(body.len() as int) =~= rest);
    assert(sized =~= len + plain);
    lemma_varint_round_trip(body.len() as u32, plain);
    assert(sized.skip((len.len() + body.len()) as int) =~= rest);
}

} // verus!
