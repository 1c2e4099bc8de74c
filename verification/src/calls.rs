//! Laws of calls: what the results of one call, or of two, owe to their arguments.
//!
//! `call_ensures(f, args, result)` says that a call of `f` with `args` may return `result`; for an argument behind a
//! `&mut`, `old` and `final` are its values before and after that call.

use vstd::prelude::*;
use vstd::string::*;

use crate::applog;
use crate::applog::{LogPipe, PanicStore};
use crate::ascii;
use crate::buffer::{ByteBuf, TextBuf};
use crate::display;
use crate::display::{Align, Font, GoggleStatus, Op, Shown, Status, StatusDisplay, TruckStatus};
use crate::geo;
use crate::geo::{CoordE7, LaunchPoint, Nav};
use crate::goggle;
use crate::goggle::{Button, ButtonEvent, GoggleLink, GogglePanel, Press, Reply};
use crate::gps;
use crate::gps::{GpsFix, GpsReader, Parsed};
use crate::imu::{HomeError, HomeSampler, Sampling};
use crate::link_id;
use crate::link_id::Binding;
use crate::lora_link::{LinkState, Serviced};
use crate::lora_ping;
use crate::lora_ping::{Ping, PingEvent, Pinger, Summary};
use crate::nrf_spike;
use crate::ppm_decoder::{Config, EdgeTimer, Frame, MeasuredFrame, PpmDecoder};
use crate::ppm_diag;
use crate::ppm_diag::{PpmDiag, PpmStats, Report};
use crate::proto;
use crate::proto::{Control, Telemetry};
use crate::servo;
use crate::truck;
use crate::truck::{ServoLoop, TruckLink, TruckPanel, Turn, Window};
use crate::truck_diag;
use crate::truck_diag::{Animation, RenderSpeed, RenderWindow};
use crate::text;

verus! {

// ---------------------------------------------------------------------------------------------------------------
// GPS
// ---------------------------------------------------------------------------------------------------------------

/// Two lines that differ in nothing but the talker read alike, whoever the talkers are.
pub proof fn law_lines_of_any_talker_read_alike(
    one: &[u8],
    other: &[u8],
    first: Parsed,
    second: Parsed,
    talkers: (Seq<u8>, Seq<u8>),
    kind: (u8, u8, u8),
    rest: Seq<u8>,
)
    requires
        forall|i: int| 0 <= i < talkers.0.len() ==> (#[trigger] talkers.0[i]) != 0x2c,
        forall|i: int| 0 <= i < talkers.1.len() ==> (#[trigger] talkers.1[i]) != 0x2c,
        kind.0 != 0x2c && kind.1 != 0x2c && kind.2 != 0x2c,
        rest.len() == 0 || rest[0] == 0x2c,
        one@ == seq![0x24u8] + talkers.0 + seq![kind.0, kind.1, kind.2] + rest,
        other@ == seq![0x24u8] + talkers.1 + seq![kind.0, kind.1, kind.2] + rest,
        forall|i: int| 0 <= i < one@.len() ==> (#[trigger] one@[i]) != 0x2a && one@[i] != 13 && one@[i] != 10,
        forall|i: int| 0 <= i < other@.len() ==> (#[trigger] other@[i]) != 0x2a && other@[i] != 13 && other@[i] != 10,
    ensures
        call_ensures(gps::parse_line, (one,), first) && call_ensures(gps::parse_line, (other,), second) ==> first == second,
{
    lemma_line_of(one@, talkers.0, kind, rest);
    lemma_line_of(other@, talkers.1, kind, rest);
    gps::law_talker_does_not_matter(talkers.0, talkers.1, kind.0, kind.1, kind.2, rest);
}

proof fn lemma_line_of(line: Seq<u8>, talker: Seq<u8>, kind: (u8, u8, u8), rest: Seq<u8>)
    requires
        line == seq![0x24u8] + talker + seq![kind.0, kind.1, kind.2] + rest,
        forall|i: int| 0 <= i < line.len() ==> (#[trigger] line[i]) != 0x2a && line[i] != 13 && line[i] != 10,
    ensures
        gps::line_parsed(line) == gps::body_parsed(talker + seq![kind.0, kind.1, kind.2] + rest),
{
    let body = talker + seq![kind.0, kind.1, kind.2] + rest;
    let none = Seq::<u8>::empty();
    assert(line =~= none + seq![0x24u8] + body);
    assert forall|i: int| 0 <= i < body.len() implies (#[trigger] body[i]) != 0x2a && body[i] != 13 && body[i] != 10 by {
        assert(line[i + 1] == body[i]);
    }
    gps::law_unchecked_line_yields_its_sentence(none, 0x24, body);
}

/// Speeds come out in cm/s, rounded to nearest, and held to 10 000 000.
pub proof fn law_speeds_come_out_rounded(milli: u32, knots: u32, kmh: u32)
    ensures
        call_ensures(gps::milliknots_to_cm_s, (milli,), knots) ==> {
            &&& knots <= 10_000_000
            &&& knots < 10_000_000 ==> -5_000_000 <= milli * 514_444 - knots * 10_000_000 < 5_000_000
            &&& knots == 10_000_000 ==> milli * 514_444 >= 10_000_000 * 10_000_000 - 5_000_000
        },
        call_ensures(gps::milli_kmh_to_cm_s, (milli,), kmh) ==> {
            &&& kmh <= 10_000_000
            &&& kmh < 10_000_000 ==> -18 <= milli - kmh * 36 < 18
            &&& kmh == 10_000_000 ==> milli >= 10_000_000 * 36 - 18
        },
{
    gps::law_speeds_round_to_nearest(milli);
}

/// A number written in digits, with any leading zeros, is parsed as that number where it fits 32 bits.
pub proof fn law_written_numbers_are_parsed(s: &[u8], n: nat, len: nat, r: Option<u32>)
    requires
        0 < len,
        n < ascii::pow10(len),
        s@ == ascii::digits(n, len),
    ensures
        call_ensures(gps::parse_uint, (s,), r) ==> {
            &&& n <= 0xffff_ffff ==> r == Some(n as u32)
            &&& n > 0xffff_ffff ==> r is None
        },
{
    gps::law_plain_numbers_read(n, len, s@);
}

/// A decimal written with three places is parsed as that many thousandths.
pub proof fn law_written_decimals_are_parsed(s: &[u8], whole: nat, len: nat, milli: nat, r: Option<u32>)
    requires
        0 < len,
        whole < ascii::pow10(len),
        milli < 1000,
        whole * 1000 + milli <= 0xffff_ffff,
        s@ == ascii::digits(whole, len) + seq![0x2eu8] + ascii::digits(milli, 3),
    ensures
        call_ensures(gps::parse_decimal_milli, (s,), r) ==> r == Some((whole * 1000 + milli) as u32),
{
    gps::law_three_decimals_read_exactly(whole, len, milli);
}

/// A coordinate written in degrees, minutes and 1e-5 minutes is parsed as degrees times 1e7, rounded to nearest and
/// negative in the south and west, up to 90 degrees of latitude and 180 of longitude.
pub proof fn law_written_coordinates_are_parsed(value: &[u8], hemi: &[u8], deg: nat, min: nat, frac: nat, r: Option<i32>)
    requires
        hemi@.len() == 1,
        hemi@[0] == 78 || hemi@[0] == 83 || hemi@[0] == 69 || hemi@[0] == 87,
        deg < (if hemi@[0] == 78 || hemi@[0] == 83 {
            100nat
        } else {
            1000
        }),
        min < 60,
        frac < 100_000,
        value@ == ascii::digits(
            deg,
            if hemi@[0] == 78 || hemi@[0] == 83 {
                2
            } else {
                3
            },
        ) + ascii::digits(min, 2) + seq![0x2eu8] + ascii::digits(frac, 5),
    ensures
        call_ensures(gps::parse_coord_e7, (value, hemi), r) ==> {
            let exact_e5 = deg * 6_000_000 + min * 100_000 + frac;
            let limit: int = if hemi@[0] == 78 || hemi@[0] == 83 {
                90
            } else {
                180
            };
            &&& r is Some <==> exact_e5 <= limit * 6_000_000
            &&& r matches Some(e7) ==> {
                let size = if hemi@[0] == 78 || hemi@[0] == 69 {
                    e7 as int
                } else {
                    -e7
                };
                -3 <= 10 * exact_e5 - 6 * size <= 3
            }
        },
{
    gps::law_coordinates_read_in_degrees(deg, min, frac, hemi@[0]);
    assert(hemi@ =~= seq![hemi@[0]]);
}

/// A line is taken where the two bytes behind its `*` are the exclusive-or of all that lies between its start and the
/// `*`, in hexadecimal, and is then what lies between; else it is not.
pub proof fn law_lines_with_a_wrong_checksum_are_dropped(
    line: &[u8],
    body: Seq<u8>,
    hi: u8,
    lo: u8,
    r: Option<&[u8]>,
    high: Option<u8>,
    low: Option<u8>,
)
    requires
        forall|i: int| 0 <= i < body.len() ==> (#[trigger] body[i]) != 0x2a,
        line@ == seq![0x24u8] + body + seq![0x2au8, hi, lo],
    ensures
        call_ensures(gps::validate_and_body, (line,), r) && call_ensures(gps::hex_nibble, (hi,), high) && call_ensures(
            gps::hex_nibble,
            (lo,),
            low,
        ) ==> {
            &&& r is Some <==> high is Some && low is Some && high->0 * 16 + low->0 == gps::xor_all(body)
            &&& r matches Some(taken) ==> taken@ == body
        },
{
    let none = Seq::<u8>::empty();
    gps::law_sentence_lies_between_start_and_star(none, 0x24, body, hi, lo, none);
    assert(line@ =~= none + seq![0x24u8] + body + seq![0x2au8, hi, lo] + none);
}

/// The fields of a sentence are what stands between its commas; one that is empty or past the end is none.
pub proof fn law_fields_are_what_stands_between_commas(body: &[u8], fields: Seq<Seq<u8>>, index: usize, r: Option<&[u8]>)
    requires
        fields.len() > 0,
        gps::comma_free(fields),
        body@ == gps::joined(fields),
    ensures
        call_ensures(gps::field, (body, index), r) ==> {
            &&& r is Some <==> index < fields.len() && fields[index as int].len() > 0
            &&& r matches Some(f) ==> f@ == fields[index as int]
        },
{
    gps::law_fields_come_apart_at_commas(fields, index as nat);
}

/// A reader at the start of a line that holds one more line yields its fix: the line's own speed, its own position or
/// else the one kept, and the satellites and quality kept. A line that holds no speed yields none, and a status is kept.
pub proof fn law_reader_yields_the_fix_of_a_line(reader: &mut GpsReader, line: Seq<u8>, end: u8, fix: Option<GpsFix>)
    requires
        old(reader).assembly().line.len() == 0,
        !old(reader).assembly().overlong,
        0 < line.len() <= 96,
        forall|i: int| 0 <= i < line.len() ==> (#[trigger] line[i]) != 13 && line[i] != 10,
        end == 13 || end == 10,
        old(reader).pending() == line.push(end),
    ensures
        call_ensures(GpsReader::next_fix, (reader,), fix) ==> {
            let kept = old(reader).assembly();
            let now = final(reader).assembly();
            &&& fix is Some <==> gps::line_parsed(line) is Speed
            &&& gps::line_parsed(line) matches Parsed::Speed { speed_cm_s, lat_e7, lon_e7 } ==> {
                &&& (fix->0).speed_cm_s == speed_cm_s
                &&& (fix->0).satellites == kept.satellites
                &&& (fix->0).fix == kept.fix
                &&& (fix->0).lat_e7 == (if lat_e7 is Some {
                    lat_e7
                } else {
                    kept.lat_e7
                })
                &&& (fix->0).lon_e7 == (if lon_e7 is Some {
                    lon_e7
                } else {
                    kept.lon_e7
                })
            }
            &&& gps::line_parsed(line) matches Parsed::Status { satellites, fix: quality, lat_e7, lon_e7 } ==> {
                now.satellites == satellites && now.fix == Some(quality) && now.lat_e7 == lat_e7 && now.lon_e7 == lon_e7
            }
            &&& gps::line_parsed(line) is Nothing ==> now == kept
        },
{
    let a = old(reader).assembly();
    let bytes = line.push(end);
    gps::law_lines_make_fixes(a, line, end);
    gps::law_stopping_at_a_fix_loses_nothing(a, bytes);
    let (next, found, rest) = a.run(bytes);
    if found is None {
        assert(rest =~= Seq::<u8>::empty());
        assert(next.after(rest) == next);
    } else {
        assert(a.fixes(bytes)[0] == found->0);
    }
}

/// A chunk is read as it came in, and changes nothing that was kept.
pub proof fn law_chunks_are_taken_in_whole(reader: &mut GpsReader, bytes: &[u8])
    ensures
        call_ensures(GpsReader::refill, (reader, bytes), ()) ==> final(reader).pending() == bytes@
            && final(reader).assembly() == old(reader).assembly(),
{
}

/// Of the hexadecimal digits each reads as its value, in either case, and any other byte as none.
pub proof fn law_hex_digits_are_read_in_either_case(b: u8, r: Option<u8>, v: u8)
    requires
        v < 16,
    ensures
        call_ensures(gps::hex_nibble, (b,), r) ==> (r == Some(v) <==> (v < 10 && b == 48 + v) || (v >= 10 && (b == 87 + v || b
            == 55 + v))),
        call_ensures(gps::hex_nibble, (b,), r) ==> (r matches Some(n) ==> n < 16),
{
}

/// Digits fold to the number that they write, and anything else to none.
pub proof fn law_digits_fold_to_their_number(bytes: &[u8], n: nat, len: nat, r: Option<i64>)
    requires
        n < ascii::pow10(len),
        n <= 0x7fff_ffff_ffff_ffff,
        bytes@ == ascii::digits(n, len),
    ensures
        call_ensures(gps::fold_digits_i64, (bytes,), r) ==> r == Some(n as i64),
{
    ascii::law_digits_read_back(n, len);
}

/// A byte is found where it first stands.
pub proof fn law_bytes_are_found_where_they_first_stand(s: &[u8], before: Seq<u8>, byte: u8, after: Seq<u8>, at: usize)
    requires
        s@ == before + seq![byte] + after,
        forall|i: int| 0 <= i < before.len() ==> (#[trigger] before[i]) != byte,
    ensures
        call_ensures(ascii::find_byte, (s, byte), at) ==> at == before.len(),
{
    ascii::law_first_index_finds(before, byte, after);
}

// ---------------------------------------------------------------------------------------------------------------
// PPM
// ---------------------------------------------------------------------------------------------------------------

/// An interval of at least the sync gap, however long, ends the frame: a frame that has any channel comes out, spoilt or
/// not, and the next one starts empty. A shorter interval ends nothing: within the band it is the next of up to sixteen
/// channels, and otherwise it spoils the frame.
pub proof fn law_a_long_interval_ends_the_frame(decoder: &mut PpmDecoder, delta_us: u32, frame: Option<MeasuredFrame>)
    ensures
        call_ensures(PpmDecoder::feed_measured, (decoder, delta_us), frame) ==> {
            let config = old(decoder).spec_config();
            let before = old(decoder).progress();
            let after = final(decoder).progress();
            &&& final(decoder).spec_config() == config
            &&& delta_us >= config.sync_gap_us ==> {
                &&& frame is Some <==> before.widths.len() > 0
                &&& frame matches Some(m) ==> m.frame.widths() == before.widths && m.corrupt == before.corrupt
                    && m.sync_gap_us == delta_us
                &&& after.widths.len() == 0 && !after.corrupt
            }
            &&& delta_us < config.sync_gap_us ==> {
                let taken = config.min_pulse_us <= delta_us <= config.max_pulse_us && before.widths.len() < 16;
                &&& frame is None
                &&& taken ==> after.widths == before.widths.push(delta_us as u16) && after.corrupt == before.corrupt
                &&& !taken ==> after.widths == before.widths && after.corrupt
            }
        },
{
}

/// The plain decoder does the same, but keeps a spoilt frame to itself.
pub proof fn law_spoilt_frames_stay_inside(decoder: &mut PpmDecoder, delta_us: u32, frame: Option<Frame>)
    ensures
        call_ensures(PpmDecoder::feed, (decoder, delta_us), frame) ==> {
            let config = old(decoder).spec_config();
            let before = old(decoder).progress();
            let after = final(decoder).progress();
            &&& final(decoder).spec_config() == config
            &&& frame is Some <==> delta_us >= config.sync_gap_us && before.widths.len() > 0 && !before.corrupt
            &&& frame matches Some(f) ==> f.widths() == before.widths
            &&& delta_us >= config.sync_gap_us ==> after.widths.len() == 0 && !after.corrupt
            &&& delta_us < config.sync_gap_us ==> {
                let taken = config.min_pulse_us <= delta_us <= config.max_pulse_us && before.widths.len() < 16;
                &&& taken ==> after.widths == before.widths.push(delta_us as u16) && after.corrupt == before.corrupt
                &&& !taken ==> after.widths == before.widths && after.corrupt
            }
        },
{
}

/// A new decoder has the configuration it was given and no channel yet.
pub proof fn law_decoders_start_empty(config: Config, decoder: PpmDecoder)
    ensures
        call_ensures(PpmDecoder::new, (config,), decoder) ==> decoder.spec_config() == config
            && decoder.progress().widths.len() == 0 && !decoder.progress().corrupt,
{
}

/// Edges are timed from one to the next, and the first one after a start or a reset from none.
pub proof fn law_edges_are_timed_from_the_last(timer: &mut EdgeTimer, now_us: u64, delta_us: Option<u32>)
    ensures
        call_ensures(EdgeTimer::edge, (timer, now_us), delta_us) ==> {
            &&& final(timer).last() == Some(now_us)
            &&& delta_us is Some <==> old(timer).last() is Some
            &&& old(timer).last() matches Some(last) ==> (0 <= now_us - last <= 0xffff_ffff ==> delta_us->0 == now_us - last)
        },
{
}

/// A frame's channel is there exactly below its count.
pub proof fn law_channels_are_there_below_the_count(frame: &Frame, n: usize, width: Option<u16>)
    requires
        frame.count <= 16,
    ensures
        call_ensures(Frame::channel, (frame, n), width) ==> {
            &&& width is Some <==> n < frame.count
            &&& width matches Some(us) ==> us == frame.channels@[n as int]
        },
{
}

// ---------------------------------------------------------------------------------------------------------------
// Identity
// ---------------------------------------------------------------------------------------------------------------

/// The identity of a phrase is cut from two hashes that, run backward over every byte of it, lead to the two seeds.
pub proof fn law_identity_is_of_the_whole_phrase(phrase: &str, binding: Binding, h0: u64, h1: u64)
    requires
        link_id::fnv_seed(link_id::unmixed(h0), phrase.spec_bytes()) == 0xcbf2_9ce4_8422_2325,
        link_id::fnv_seed(link_id::unmixed(h1), phrase.spec_bytes()) == 0xcb0d_9c1b_84dd_23da,
    ensures
        call_ensures(link_id::derive, (phrase,), binding) ==> {
            &&& binding.uid@[0] == h0 % 256
            &&& binding.uid@[1] == h0 / 256 % 256
            &&& binding.uid@[2] == h0 / 65_536 % 256
            &&& binding.uid@[3] == h1 % 256
            &&& binding.uid@[4] == h1 / 256 % 256
            &&& binding.uid@[5] == h1 / 65_536 % 256
            &&& binding.link_id@[0] == h0 % 256
            &&& binding.link_id@[1] == h0 / 256 % 256
            &&& binding.crc_init == (h1 / 256 % 256) * 256 + h1 / 65_536 % 256
        },
{
    link_id::law_uid_is_cut_from_the_whole_phrase(phrase.spec_bytes(), h0, h1);
}

/// A hash, a mixed hash and a CRC lead back to what they were started from.
pub proof fn law_hashes_lead_back(bytes: &[u8], seed: u64, hash: u64, mixed: u64, init: u16, crc: u16)
    ensures
        call_ensures(link_id::fnv1a, (bytes, seed), hash) ==> link_id::fnv_seed(hash, bytes@) == seed,
        call_ensures(link_id::fmix64, (hash,), mixed) ==> link_id::unmixed(mixed) == hash,
        call_ensures(link_id::crc16, (init, bytes), crc) ==> link_id::crc_start(crc, bytes@) == init,
{
    link_id::law_hash_runs_backward(bytes@, seed, hash);
    link_id::law_avalanche_can_be_undone(hash, mixed);
    link_id::law_crc_runs_backward(init, bytes@);
}

/// What one node frames, a node reads back exactly where the two have the same binding, and gets the payload as it was.
pub proof fn law_framed_payloads_come_back(
    sender: &Binding,
    receiver: &Binding,
    payload: &[u8],
    out: &mut ByteBuf,
    done: Result<(), ()>,
    frame: &[u8],
    r: Option<&[u8]>,
)
    ensures
        call_ensures(link_id::frame, (sender, payload, out), done) && done is Ok && frame@ == final(out)@ && call_ensures(
            link_id::deframe,
            (receiver, frame),
            r,
        ) ==> {
            &&& frame@.len() == payload@.len() + 4
            &&& r is Some <==> receiver.link_id@ == sender.link_id@ && receiver.crc_init == sender.crc_init
            &&& r matches Some(p) ==> p@ == payload@
        },
        call_ensures(link_id::frame, (sender, payload, out), done) ==> (done is Ok <==> payload@.len() + 4
            <= old(out).spec_capacity()),
{
    link_id::law_frames_round_trip(sender.link_id@, sender.crc_init, payload@);
    link_id::law_foreign_frames_are_dropped(
        sender.link_id@,
        sender.crc_init,
        receiver.link_id@,
        receiver.crc_init,
        payload@,
    );
}

// ---------------------------------------------------------------------------------------------------------------
// Messages
// ---------------------------------------------------------------------------------------------------------------

/// A command that was encoded reads back as it was.
pub proof fn law_encoded_commands_come_back(
    control: &Control,
    out: &mut ByteBuf,
    done: Result<(), ()>,
    bytes: &[u8],
    r: Option<Control>,
)
    ensures
        call_ensures(Control::encode, (control, out), done) && done is Ok && bytes@ == final(out)@ && call_ensures(
            proto::read_control,
            (bytes,),
            r,
        ) ==> r == Some(*control),
        call_ensures(Control::encode, (control, out), done) && old(out).spec_capacity() >= 18 ==> done is Ok,
{
    proto::law_control_round_trips(*control);
}

/// Telemetry that was encoded reads back as it was.
pub proof fn law_encoded_telemetry_comes_back(
    telemetry: &Telemetry,
    out: &mut ByteBuf,
    done: Result<(), ()>,
    bytes: &[u8],
    r: Option<Telemetry>,
)
    ensures
        call_ensures(Telemetry::encode, (telemetry, out), done) && done is Ok && bytes@ == final(out)@ && call_ensures(
            proto::read_telemetry,
            (bytes,),
            r,
        ) ==> r == Some(*telemetry),
        call_ensures(Telemetry::encode, (telemetry, out), done) && old(out).spec_capacity() >= 36 ==> done is Ok,
{
    proto::law_telemetry_round_trips(*telemetry);
}

/// A command read on top of another takes what was sent for each field, and keeps the rest; one that is malformed changes
/// nothing.
pub proof fn law_commands_are_read_on_top(control: &mut Control, number: u32, value: u32, bytes: &[u8], done: Result<(), ()>)
    requires
        1 <= number <= 3,
        bytes@ == seq![(number * 8) as u8] + proto::varint_bytes(value as nat),
    ensures
        call_ensures(Control::decode_from_bytes, (control, bytes), done) ==> {
            &&& done is Ok
            &&& final(control).pan_us == (if number == 1 {
                value
            } else {
                old(control).pan_us
            })
            &&& final(control).tilt_us == (if number == 2 {
                value
            } else {
                old(control).tilt_us
            })
            &&& final(control).flags == (if number == 3 {
                value
            } else {
                old(control).flags
            })
        },
{
    let none = Seq::<u8>::empty();
    let tag = proto::varint_bytes((number * 8) as nat);
    assert(tag =~= seq![(number * 8) as u8]);
    let f = old(control).fields();
    proto::law_fields_are_read_in_turn(f, 3, number, value, none);
    assert(bytes@ =~= tag + proto::varint_bytes(value as nat) + none);
    proto::law_fields_are_read_in_turn(f.update(number - 1, value), 3, number, value, none);
    let g = final(control).fields();
    assert(f[0] == old(control).pan_us && f[1] == old(control).tilt_us && f[2] == old(control).flags);
    assert(g[0] == final(control).pan_us && g[1] == final(control).tilt_us && g[2] == final(control).flags);
}

/// Telemetry read on top of other takes what was sent for a field, and keeps the rest.
pub proof fn law_telemetry_is_read_on_top(
    telemetry: &mut Telemetry,
    number: u32,
    value: u32,
    bytes: &[u8],
    done: Result<(), ()>,
)
    requires
        1 <= number <= 6,
        bytes@ == seq![(number * 8) as u8] + proto::varint_bytes(value as nat),
    ensures
        call_ensures(Telemetry::decode_from_bytes, (telemetry, bytes), done) ==> {
            let now = *final(telemetry);
            let was = *old(telemetry);
            &&& done is Ok
            &&& number == 1 ==> now == (Telemetry { speed_cm_s: value, ..was })
            &&& number == 2 ==> now == (Telemetry { sats: value, ..was })
            &&& number == 3 ==> now == (Telemetry { fix_quality: value, ..was })
            &&& number == 4 ==> now == (Telemetry { dist_m: value, ..was })
            &&& number == 5 ==> now == (Telemetry { bearing_deg: value, ..was })
            &&& number == 6 ==> now == (Telemetry { nav_valid: value, ..was })
        },
{
    let none = Seq::<u8>::empty();
    let tag = proto::varint_bytes((number * 8) as nat);
    assert(tag =~= seq![(number * 8) as u8]);
    let f = old(telemetry).fields();
    proto::law_fields_are_read_in_turn(f, 6, number, value, none);
    assert(bytes@ =~= tag + proto::varint_bytes(value as nat) + none);
    proto::law_fields_are_read_in_turn(f.update(number - 1, value), 6, number, value, none);
    let g = final(telemetry).fields();
    assert(f[0] == old(telemetry).speed_cm_s && f[1] == old(telemetry).sats && f[2] == old(telemetry).fix_quality);
    assert(f[3] == old(telemetry).dist_m && f[4] == old(telemetry).bearing_deg && f[5] == old(telemetry).nav_valid);
    assert(g[0] == final(telemetry).speed_cm_s && g[1] == final(telemetry).sats && g[2] == final(telemetry).fix_quality);
    assert(g[3] == final(telemetry).dist_m && g[4] == final(telemetry).bearing_deg && g[5] == final(telemetry).nav_valid);
}

// ---------------------------------------------------------------------------------------------------------------
// Link
// ---------------------------------------------------------------------------------------------------------------

/// The command that a goggle sends is the one that a truck of the same pair obeys: the freshest, or else the last one
/// again, with bit 0 of the flags set where a re-home was requested. The truck answers it where its reply fits.
pub proof fn law_sent_commands_are_obeyed(
    sender: &mut GoggleLink,
    fresh: Option<Control>,
    air: &mut ByteBuf,
    done: Result<(), ()>,
    receiver: &mut TruckLink,
    frame: &[u8],
    latest: Option<Telemetry>,
    out: &mut ByteBuf,
    turn: Turn,
)
    ensures
        call_ensures(GoggleLink::tick, (sender, fresh, air), done) && done is Ok && frame@ == final(air)@
            && old(sender).spec_binding().link_id@ == old(receiver).spec_binding().link_id@
            && old(sender).spec_binding().crc_init == old(receiver).spec_binding().crc_init && call_ensures(
            TruckLink::on_frame,
            (receiver, frame, latest, out),
            turn,
        ) ==> {
            let sent = if fresh is Some {
                fresh->0
            } else {
                old(sender).spec_latest()
            };
            let flags = if old(sender).spec_rehome() {
                1u32
            } else {
                sent.flags
            };
            let command = Control { flags, ..sent };
            &&& final(sender).spec_latest() == sent
            &&& !final(sender).spec_rehome()
            &&& turn == Turn::Reply(command) || turn == Turn::Obey(command)
            &&& old(out).spec_capacity() >= 40 ==> turn == Turn::Reply(command)
        },
{
    let sent = if fresh is Some {
        fresh->0
    } else {
        old(sender).spec_latest()
    };
    let command = goggle::rehoming(sent, old(sender).spec_rehome());
    let binding = old(sender).spec_binding();
    truck::law_command_arrives(binding.link_id@, binding.crc_init, command);
    let telemetry = if latest is Some {
        latest->0
    } else {
        old(receiver).spec_telemetry()
    };
    proto::law_telemetry_round_trips(telemetry);
}

/// What a truck replies with arrives at a goggle of the same pair as it is: the latest telemetry, or else the last again.
pub proof fn law_replies_carry_the_latest_telemetry(
    sender: &mut TruckLink,
    latest: Option<Telemetry>,
    air: &mut ByteBuf,
    done: Result<(), ()>,
    receiver: &GoggleLink,
    frame: &[u8],
    reply: Reply,
)
    ensures
        call_ensures(TruckLink::reply, (sender, latest, air), done) && done is Ok && frame@ == final(air)@
            && old(sender).spec_binding().link_id@ == receiver.spec_binding().link_id@
            && old(sender).spec_binding().crc_init == receiver.spec_binding().crc_init && call_ensures(
            GoggleLink::hear,
            (receiver, frame),
            reply,
        ) ==> reply == Reply::Telemetry(
            if latest is Some {
                latest->0
            } else {
                old(sender).spec_telemetry()
            },
        ),
{
    let telemetry = if latest is Some {
        latest->0
    } else {
        old(sender).spec_telemetry()
    };
    let binding = old(sender).spec_binding();
    goggle::law_telemetry_arrives(binding.link_id@, binding.crc_init, telemetry);
}

/// Five faulty windows in a row re-initialize a truck's radio, and twenty-five once that did not help; a faultless one
/// connects, and a foreign frame changes nothing.
pub proof fn law_radio_is_judged_by_its_windows(link: &mut TruckLink, window: Window, serviced: Serviced)
    ensures
        call_ensures(TruckLink::service, (link, window), serviced) ==> {
            let before = old(link).spec_health();
            let after = final(link).spec_health();
            let fault = window is Silence || window is RxError || window is ReplyStalled;
            let limit = if before.state is Disconnected {
                before.backoff_after
            } else {
                before.reinit_after
            };
            &&& after.reinit_after == before.reinit_after && after.backoff_after == before.backoff_after
            &&& serviced == Serviced::Reinit <==> fault && before.misses + 1 >= limit
            &&& window is Foreign ==> after == before
            &&& window is Garbage || window is NoReply || window is Answered ==> after.state is Connected && after.misses == 0
            &&& fault && before.misses + 1 >= limit ==> after.state is Disconnected && after.misses == 0
            &&& fault && before.misses + 1 < limit ==> after.misses == before.misses + 1 && (before.state is Disconnected
                ==> after.state is Disconnected) && (before.state !is Disconnected ==> after.state is Tentative)
        },
{
}

/// A new truck link has seen no fault, and re-initializes after five of them, or twenty-five while disconnected.
pub proof fn law_trucks_start_tentative(binding: Binding, link: TruckLink)
    ensures
        call_ensures(TruckLink::new, (binding,), link) ==> {
            &&& link.spec_binding() == binding
            &&& link.spec_health().misses == 0 && link.spec_health().state == LinkState::Tentative
            &&& link.spec_health().reinit_after == 5 && link.spec_health().backoff_after == 25
        },
{
}

/// The command of a frame holds its fifth and sixth channels, each 1500 where the frame ends before, and no flag.
pub proof fn law_commands_hold_channels_five_and_six(frame: &Frame, control: Control)
    ensures
        call_ensures(goggle::control_of, (frame,), control) ==> {
            &&& control.pan_us == (if frame.count > 4 {
                frame.channels@[4] as u32
            } else {
                1500
            })
            &&& control.tilt_us == (if frame.count > 5 {
                frame.channels@[5] as u32
            } else {
                1500
            })
            &&& control.flags == 0
        },
{
}

/// A press counts when the debounce window ends with the line low, and asks for a re-home when it is held to the end of
/// the long-press window; nothing else does either.
pub proof fn law_presses_count_once(button: &mut Button, event: ButtonEvent, press: Press)
    ensures
        call_ensures(Button::on, (button, event), press) ==> {
            let before = *old(button);
            let after = *final(button);
            let settled = before is Settling && event is Settled;
            let low = event == (ButtonEvent::Settled { low: true });
            &&& press == Press::LapReset <==> settled && low
            &&& press == Press::Rehome <==> before is Pressed && event is HeldLong
            &&& after is Settling <==> (before is Released && event is Fell) || (before is Settling && !settled)
            &&& after is Pressed <==> (settled && low) || (before is Pressed && !(event is HeldLong) && !(event is Rose))
            &&& after is Held <==> (before is Pressed && event is HeldLong) || (before is Held && !(event is Rose))
        },
{
}

/// A re-home that was requested is asked for by bit 0 of the next command's flags; without a request the flags stay.
pub proof fn law_rehome_requests_set_bit_zero(
    control: Control,
    requested: bool,
    sent: Control,
    asked: bool,
    link: &mut GoggleLink,
)
    ensures
        call_ensures(goggle::with_rehome, (control, requested), sent) && call_ensures(truck::rehome_requested, (&sent,), asked)
            ==> {
            &&& sent.pan_us == control.pan_us && sent.tilt_us == control.tilt_us
            &&& requested ==> asked
            &&& !requested ==> sent == control && (asked <==> control.flags % 2 == 1)
        },
        call_ensures(GoggleLink::request_rehome, (link,), ()) ==> final(link).spec_rehome() && final(link).spec_latest() == old(
            link,
        ).spec_latest(),
{
}

/// A new goggle link sends the center, and asks for no re-home.
pub proof fn law_goggles_start_at_center(binding: Binding, link: GoggleLink)
    ensures
        call_ensures(GoggleLink::new, (binding,), link) ==> {
            &&& link.spec_binding() == binding
            &&& link.spec_latest() == (Control { pan_us: 1500, tilt_us: 1500, flags: 0 })
            &&& !link.spec_rehome()
        },
{
}

// ---------------------------------------------------------------------------------------------------------------
// Servos
// ---------------------------------------------------------------------------------------------------------------

/// Whether `pulse` is the sum of a width and a trim, held to 1000 to 2000 us.
pub open spec fn is_held_sum(pulse: u16, us: u32, trim: i32) -> bool {
    &&& 1000 <= pulse <= 2000
    &&& pulse < us + trim ==> pulse == 2000
    &&& pulse > us + trim ==> pulse == 1000
}

/// A trimmed pulse is the sum of width and trim, held to the whole servo band and to nothing narrower.
pub proof fn law_trimmed_pulses_are_held_sums(us: u32, trim: i32, pulse: u16)
    ensures
        call_ensures(truck::trimmed_pulse, (us, trim), pulse) ==> is_held_sum(pulse, us, trim),
{
}

/// A tick with a command writes it; one without writes only where the gimbal was left to be written, or where it is off
/// center and no command has come for a second, which centers it.
pub proof fn law_ticks_write_what_was_commanded(
    servos: &mut ServoLoop,
    now_ms: u64,
    fresh: Option<Control>,
    pulses: Option<(u16, u16)>,
)
    ensures
        call_ensures(ServoLoop::tick, (servos, now_ms, fresh), pulses) ==> {
            let (pan_trim, tilt_trim) = old(servos).trims();
            let before = old(servos).gimbal();
            let after = final(servos).gimbal();
            let centered = before.latest.pan_us == 1500 && before.latest.tilt_us == 1500;
            let lost = fresh is None && !centered && now_ms - before.last_control_ms >= 1000;
            &&& final(servos).trims() == (pan_trim, tilt_trim)
            &&& !after.dirty
            &&& pulses is Some <==> fresh is Some || before.dirty || lost
            &&& pulses matches Some((pan, tilt)) ==> is_held_sum(pan, after.latest.pan_us, pan_trim) && is_held_sum(
                tilt,
                after.latest.tilt_us,
                tilt_trim,
            )
            &&& fresh matches Some(c) ==> after.latest.pan_us == c.pan_us && after.latest.tilt_us == c.tilt_us
                && after.last_control_ms == now_ms
            &&& fresh is None ==> after.last_control_ms == before.last_control_ms
            &&& lost ==> after.latest.pan_us == 1500 && after.latest.tilt_us == 1500
            &&& fresh is None && !lost ==> after.latest == before.latest
        },
{
}

/// A duty is the pulse's share of 20 ms, rounded down and held to full scale.
pub proof fn law_duties_are_shares_of_the_period(pulse_us: u16, max_duty: u16, duty: u16)
    ensures
        call_ensures(servo::pulse_us_to_duty, (pulse_us, max_duty), duty) ==> {
            &&& duty <= max_duty
            &&& pulse_us <= 20_000 ==> 0 <= pulse_us * max_duty - duty * 20_000 < 20_000
            &&& pulse_us > 20_000 ==> duty == max_duty
        },
{
    servo::law_duty_is_the_share_of_the_period(pulse_us, max_duty);
}

/// A raw width is driven as it is from 1000 to 2000 us and held to that band outside of it.
pub proof fn law_raw_widths_are_held_to_the_band(ppm_us: u16, pulse_us: u16)
    ensures
        call_ensures(servo::ppm_to_pulse_us, (ppm_us,), pulse_us) ==> is_held_sum(pulse_us, ppm_us as u32, 0),
{
}

/// The servo loop starts at center, to be written at once; a new home is written again with its trims, and the pose stays.
pub proof fn law_new_homes_are_written(
    now_ms: u64,
    trims: (i32, i32),
    fresh: ServoLoop,
    servos: &mut ServoLoop,
)
    ensures
        call_ensures(ServoLoop::new, (now_ms, trims.0, trims.1), fresh) ==> {
            &&& fresh.trims() == trims
            &&& fresh.gimbal().dirty && fresh.gimbal().last_control_ms == now_ms
            &&& fresh.gimbal().latest.pan_us == 1500 && fresh.gimbal().latest.tilt_us == 1500
        },
        call_ensures(ServoLoop::rehome, (servos, trims.0, trims.1), ()) ==> {
            &&& final(servos).trims() == trims
            &&& final(servos).gimbal().dirty
            &&& final(servos).gimbal().latest == old(servos).gimbal().latest
            &&& final(servos).gimbal().last_control_ms == old(servos).gimbal().last_control_ms
        },
{
}

/// The fraction `value / scale` of the band lies as far along it, rounded down; past one it is the end.
pub proof fn law_fractions_lie_along_the_servo_band(value: u16, scale: u16, pulse_us: u16)
    requires
        scale > 0,
    ensures
        call_ensures(servo::normalized_to_pulse_us, (value, scale), pulse_us) ==> {
            &&& 1000 <= pulse_us <= 2000
            &&& value <= scale ==> 0 <= value * 1000 - (pulse_us - 1000) * scale < scale
            &&& value > scale ==> pulse_us == 2000
        },
{
    servo::law_fractions_lie_along_the_band(value, scale);
}

// ---------------------------------------------------------------------------------------------------------------
// Panel
// ---------------------------------------------------------------------------------------------------------------

/// The plain status draws four lines, and the second shows each flag by itself: `Y` where it is set and `N` where not,
/// whatever the other one is.
pub proof fn law_drawn_flags_are_independent(panel: &mut StatusDisplay, status: Status, ops: Option<Vec<Op>>)
    ensures
        call_ensures(StatusDisplay::render, (panel, status), ops) ==> (ops matches Some(list) ==> {
            &&& list@.len() == 4
            &&& list@[1] matches Op::Text { text, x, y, font, align } && {
                &&& x == 0 && y == 19 && font == Font::Small && align == Align::Left
                &&& text@.len() == 12
                &&& text@[5] == 'Y' <==> status.link_up
                &&& text@[5] == 'N' <==> !status.link_up
                &&& text@[11] == 'Y' <==> status.gps_fix
                &&& text@[11] == 'N' <==> !status.gps_fix
            }
        }),
{
    if let Some(list) = ops {
        display::law_plain_status_shows_each_value(status);
        if display::marks(list@) == display::status_marks(status) {
            assert(list@.len() == 4);
            display::law_operations_draw_what_they_say(list@, 1);
        }
    }
}

/// A status that the panel shows is not drawn again, and any other is; what was flushed is then what the panel shows.
pub proof fn law_panels_draw_changes_only(
    panel: &mut StatusDisplay,
    status: Status,
    ops: Option<Vec<Op>>,
    drawn: &mut StatusDisplay,
    again: &mut StatusDisplay,
    more: Option<Vec<Op>>,
)
    ensures
        call_ensures(StatusDisplay::render, (panel, status), ops) ==> (ops is None <==> old(panel).shown() == Shown::Plain(
            status,
        )),
        call_ensures(StatusDisplay::rendered, (drawn, status), ()) && *final(drawn) == *old(again) && call_ensures(
            StatusDisplay::render,
            (again, status),
            more,
        ) ==> more is None,
{
}

/// The two other layouts are drawn by the same rule, and as their marks say.
pub proof fn law_layouts_are_drawn_as_they_are_laid_out(
    panel: &mut StatusDisplay,
    seen: GoggleStatus,
    ops: Option<Vec<Op>>,
    other: &mut StatusDisplay,
    st: TruckStatus,
    list: Option<Vec<Op>>,
)
    ensures
        call_ensures(StatusDisplay::render_goggle, (panel, seen), ops) ==> {
            &&& ops is None <==> old(panel).shown() == Shown::Goggle(seen)
            &&& ops matches Some(v) ==> display::marks(v@) == display::goggle_marks(seen)
        },
        call_ensures(StatusDisplay::render_truck, (other, st), list) ==> {
            &&& list is None <==> old(other).shown() == Shown::Truck(st)
            &&& list matches Some(v) ==> display::marks(v@) == display::truck_marks(st)
        },
{
}

/// Speeds are shown to the nearest km/h and mph, the arc in 26ths of 60 mph, and a signal in bars that step at -105, -90
/// and -75 dBm, none of them while the link is down.
pub proof fn law_shown_numbers_are_rounded(cm_s: u32, kmh: u32, mph: u32, lit: u32, rssi: i16, linked: bool, bars: u8)
    ensures
        call_ensures(display::cm_s_to_kmh, (cm_s,), kmh) ==> -500 <= cm_s * 36 - kmh * 1000 < 500,
        call_ensures(display::cm_s_to_mph, (cm_s,), mph) ==> -80_467 <= cm_s * 3600 - mph * 160_934 < 80_467,
        call_ensures(display::lit_segments, (mph,), lit) ==> (mph <= 60 ==> -60 <= 52 * mph - 120 * lit <= 60) && (mph >= 60
            ==> lit == 26),
        call_ensures(display::rssi_to_bars, (rssi, linked), bars) ==> {
            &&& bars <= 4
            &&& bars >= 1 <==> linked
            &&& bars >= 2 <==> linked && rssi > -105
            &&& bars >= 3 <==> linked && rssi > -90
            &&& bars >= 4 <==> linked && rssi > -75
        },
{
    display::law_speeds_are_shown_to_the_nearest_unit(cm_s as int);
    display::law_arc_lights_the_share_of_the_speed(mph as int);
    display::law_bars_follow_the_signal(rssi, linked);
}

/// A pulse above 1500 us shows as 9 degrees of pan and 6 of tilt per 100 us, rounded down, up to 45 and 30; as much below
/// shows as the same angles to the other side.
pub proof fn law_shown_angles_follow_the_pulse(us: i32, mirrored: i32, pan: i16, tilt: i16, other_pan: i16, other_tilt: i16)
    requires
        us >= 1500,
        mirrored == 3000 - us,
    ensures
        call_ensures(display::pan_us_to_deg, (us,), pan) ==> (us <= 2000 ==> 0 <= (us - 1500) * 9 - pan * 100 < 100) && (us
            > 2000 ==> pan == 45),
        call_ensures(display::tilt_us_to_deg, (us,), tilt) ==> (us <= 2000 ==> 0 <= (us - 1500) * 3 - tilt * 50 < 50) && (us
            > 2000 ==> tilt == 30),
        call_ensures(display::pan_us_to_deg, (us,), pan) && call_ensures(display::pan_us_to_deg, (mirrored,), other_pan)
            ==> other_pan == -pan,
        call_ensures(display::tilt_us_to_deg, (us,), tilt) && call_ensures(display::tilt_us_to_deg, (mirrored,), other_tilt)
            ==> other_tilt == -tilt,
{
    display::law_angles_follow_the_deflection(us as int);
    display::law_angles_are_symmetric_and_bounded(us - 1500);
}

/// The goggle's panel shows the latest telemetry, the link while a reply is less than half a second old, and the whole
/// seconds since the lap was last reset.
pub proof fn law_goggle_panel_shows_the_latest(
    panel: &mut GogglePanel,
    now_ms: u64,
    telem: Option<Telemetry>,
    lap_reset: bool,
    status: Status,
)
    ensures
        call_ensures(GogglePanel::tick, (panel, now_ms, telem, lap_reset), status) ==> {
            let shown = final(panel).telemetry();
            let origin = final(panel).lap_origin();
            &&& telem is Some ==> shown == telem->0 && final(panel).last_rx() == Some(now_ms)
            &&& telem is None ==> shown == old(panel).telemetry() && final(panel).last_rx() == old(panel).last_rx()
            &&& lap_reset ==> origin == now_ms
            &&& !lap_reset ==> origin == old(panel).lap_origin()
            &&& status.speed_cm_s == shown.speed_cm_s
            &&& status.gps_fix <==> shown.fix_quality > 0
            &&& status.link_up <==> final(panel).last_rx() is Some && now_ms - final(panel).last_rx()->0 < 500
            &&& 0 <= now_ms - origin < 0x1_0000_0000 ==> 0 <= now_ms - origin - status.lap_secs * 1000 < 1000
        },
{
}

/// The truck's panel shows the latest speed and signal, and the link while a command is less than half a second old.
pub proof fn law_truck_panel_shows_the_latest(
    panel: &mut TruckPanel,
    now_ms: u64,
    telem: Option<Telemetry>,
    rssi: Option<i16>,
    status: TruckStatus,
)
    ensures
        call_ensures(TruckPanel::tick, (panel, now_ms, telem, rssi), status) ==> {
            let speed = final(panel).speed_cm_s();
            &&& telem is Some ==> speed == (telem->0).speed_cm_s
            &&& telem is None ==> speed == old(panel).speed_cm_s()
            &&& rssi is Some ==> status.rssi == rssi->0 && final(panel).last_rx() == Some(now_ms)
            &&& rssi is None ==> status.rssi == old(panel).rssi() && final(panel).last_rx() == old(panel).last_rx()
            &&& final(panel).rssi() == status.rssi
            &&& status.linked <==> final(panel).last_rx() is Some && now_ms - final(panel).last_rx()->0 < 500
            &&& status.bars == 0 <==> !status.linked
            &&& status.bars >= 3 <==> status.linked && status.rssi > -90
            &&& -500 <= speed * 36 - status.kmh * 1000 < 500
            &&& -80_467 <= speed * 3600 - status.mph * 160_934 < 80_467
        },
{
    display::law_speeds_are_shown_to_the_nearest_unit(final(panel).speed_cm_s() as int);
    display::law_bars_follow_the_signal(final(panel).rssi(), status.linked);
}

// ---------------------------------------------------------------------------------------------------------------
// Navigation
// ---------------------------------------------------------------------------------------------------------------

/// There and back again is no way at all, and a bearing differs from what it was made of by whole turns.
pub proof fn law_navigation_is_relative(
    home: CoordE7,
    current: CoordE7,
    there: (i64, i64),
    back: (i64, i64),
    distance_m: u64,
    bearing_deg: i32,
    nav: Nav,
)
    ensures
        call_ensures(geo::delta_e7, (home, current), there) ==> {
            &&& home.lat_e7 + there.0 == current.lat_e7
            &&& home.lon_e7 + there.1 == current.lon_e7
        },
        call_ensures(geo::delta_e7, (home, current), there) && call_ensures(geo::delta_e7, (current, home), back) ==> back.0
            == -there.0 && back.1 == -there.1,
        call_ensures(geo::nav_from_rounded, (distance_m, bearing_deg), nav) ==> {
            &&& nav.bearing_deg < 360
            &&& (nav.bearing_deg - bearing_deg) % 360 == 0
            &&& distance_m <= 0xffff_ffff ==> nav.distance_m == distance_m
            &&& distance_m > 0xffff_ffff ==> nav.distance_m == 0xffff_ffff
        },
{
}

/// The launch point is the first trusted position and stays it, and every trusted position is navigated to from there.
pub proof fn law_launch_point_stays(
    launch: &mut LaunchPoint,
    fix: &GpsFix,
    leg: Option<(CoordE7, CoordE7)>,
    later: &mut LaunchPoint,
    next: &GpsFix,
    next_leg: Option<(CoordE7, CoordE7)>,
)
    ensures
        call_ensures(LaunchPoint::observe, (launch, fix), leg) ==> {
            let trusted = fix.fix is Some && (fix.fix->0).raw != 0 && fix.lat_e7 is Some && fix.lon_e7 is Some;
            &&& leg is Some <==> trusted
            &&& leg matches Some((home, current)) ==> {
                &&& fix.lat_e7 == Some(current.lat_e7) && fix.lon_e7 == Some(current.lon_e7)
                &&& old(launch).spec_home() is Some ==> old(launch).spec_home() == Some(home)
                &&& old(launch).spec_home() is None ==> home == current
            }
        },
        call_ensures(LaunchPoint::observe, (launch, fix), leg) && *final(launch) == *old(later) && call_ensures(
            LaunchPoint::observe,
            (later, next),
            next_leg,
        ) && leg is Some && next_leg is Some ==> (next_leg->0).0 == (leg->0).0,
{
}

/// The telemetry of a fix holds its numbers, zero for what is not known, and the navigation where there is any.
pub proof fn law_telemetry_holds_the_fix(fix: &GpsFix, nav: Option<Nav>, telemetry: Telemetry)
    ensures
        call_ensures(truck::telemetry_of, (fix, nav), telemetry) ==> {
            &&& telemetry.speed_cm_s == fix.speed_cm_s
            &&& fix.satellites is Some ==> telemetry.sats == fix.satellites->0
            &&& fix.satellites is None ==> telemetry.sats == 0
            &&& fix.fix is Some ==> telemetry.fix_quality == (fix.fix->0).raw
            &&& fix.fix is None ==> telemetry.fix_quality == 0
            &&& nav matches Some(n) ==> telemetry.nav_valid == 1 && telemetry.dist_m == n.distance_m && telemetry.bearing_deg
                == n.bearing_deg
            &&& nav is None ==> telemetry.nav_valid == 0 && telemetry.dist_m == 0 && telemetry.bearing_deg == 0
        },
{
}

/// Home is sampled after a second and a half, every five milliseconds, as often as was asked; a failure ends it.
pub proof fn law_home_is_sampled_as_often_as_asked(
    samples: u16,
    fresh: HomeSampler,
    sampler: &mut HomeSampler,
    ok: bool,
    waking: &mut HomeSampler,
)
    ensures
        call_ensures(HomeSampler::new, (samples,), fresh) ==> fresh.spec_wanted() >= 1 && (samples >= 1 ==> fresh.spec_wanted()
            == samples) && fresh.spec_wanted() <= samples + 1 && fresh.spec_read() == 0,
        call_ensures(HomeSampler::woken, (waking, ok), ()) ==> {
            &&& ok ==> final(waking).spec_state() == Sampling::WaitThenRead(1500)
            &&& !ok ==> final(waking).spec_state() == Sampling::Failed(HomeError::Init)
        },
        call_ensures(HomeSampler::sampled, (sampler, ok), ()) ==> {
            let wanted = old(sampler).spec_wanted();
            let read = old(sampler).spec_read() + 1;
            &&& final(sampler).spec_wanted() == wanted
            &&& !ok ==> final(sampler).spec_state() == Sampling::Failed(HomeError::Read)
            &&& ok ==> final(sampler).spec_read() == read
            &&& ok && read == wanted ==> final(sampler).spec_state() == Sampling::WaitThenAverage(5)
            &&& ok && read != wanted ==> final(sampler).spec_state() == Sampling::WaitThenRead(5)
        },
{
}

// ---------------------------------------------------------------------------------------------------------------
// Pings
// ---------------------------------------------------------------------------------------------------------------

/// The echo of a ping is valid for its number and for no other, and a ping is no echo.
pub proof fn law_echoes_answer_their_ping(
    seq_no: u32,
    other: u32,
    ping: [u8; 5],
    received: &[u8],
    echo: [u8; 5],
    heard: &[u8],
    valid: bool,
    number: Option<u32>,
)
    requires
        received@ == ping@,
        heard@ == echo@,
    ensures
        call_ensures(lora_ping::ping_payload, (seq_no,), ping) && call_ensures(lora_ping::echo_payload, (received,), echo)
            && call_ensures(lora_ping::valid_echo, (heard, other), valid) ==> (valid <==> other == seq_no),
        call_ensures(lora_ping::ping_payload, (seq_no,), ping) && call_ensures(lora_ping::valid_echo, (received, other), valid)
            ==> !valid,
        call_ensures(lora_ping::ping_payload, (seq_no,), ping) && call_ensures(lora_ping::ping_seq, (received,), number)
            ==> number == Some(seq_no),
{
    lora_ping::law_ping_layout(seq_no);
    let p = lora_ping::ping_packet(seq_no);
    lora_ping::law_echo_is_told_by_number_and_tag(lora_ping::echo_packet(p), other);
    lora_ping::law_echo_is_told_by_number_and_tag(p, other);
    if let Some(n) = number {
        lora_ping::law_ping_layout(n);
    }
}

/// Every ping moves the number on. An echo adds its round trip, a loss adds to the losses, one that was not sent adds
/// nothing; every tenth that was sent sums up.
pub proof fn law_pings_are_counted(pinger: &mut Pinger, ping: Ping, summary: Option<Summary>)
    ensures
        call_ensures(Pinger::done, (pinger, ping), summary) ==> {
            let before = old(pinger).tally();
            let after = final(pinger).tally();
            let sent = old(pinger).next_seq() + 1;
            &&& sent <= 0xffff_ffff ==> final(pinger).next_seq() == sent
            &&& ping is NotSent ==> after == before
            &&& ping is Lost ==> after.lost == before.lost + 1 && after.rtts == before.rtts
            &&& ping matches Ping::Echoed(rtt_us) ==> after.lost == before.lost && after.rtts == before.rtts.push(rtt_us)
            &&& summary is Some <==> ping !is NotSent && sent % 10 == 0
            &&& summary matches Some(s) ==> {
                &&& s.pings == sent
                &&& s.echoes == after.rtts.len()
                &&& s.lost == after.lost
                &&& s.rtt is Some <==> after.rtts.len() > 0
                &&& s.rtt matches Some(rtt) ==> {
                    &&& forall|i: int| 0 <= i < after.rtts.len() ==> rtt.min_us <= (#[trigger] after.rtts[i]) <= rtt.max_us
                    &&& after.rtts.contains(rtt.min_us) && after.rtts.contains(rtt.max_us)
                }
            }
        },
{
    let rtts = final(pinger).tally().rtts;
    if rtts.len() > 0 {
        assert forall|i: int| 0 <= i < rtts.len() implies lora_ping::least(rtts) <= (#[trigger] rtts[i])
            <= lora_ping::greatest(rtts) by {
            lora_ping::law_statistics_are_of_the_round_trips(rtts, rtts, i);
        }
        lora_ping::law_statistics_are_of_the_round_trips(rtts, rtts, 0);
    }
}

/// A ping ends as sent or not, and as echoed exactly where its own echo came in, with the time that it took.
pub proof fn law_pings_end_by_their_echo(pinger: &Pinger, event: PingEvent, ping: Ping, ours: bool)
    ensures
        call_ensures(Pinger::outcome, (pinger, event), ping) ==> {
            &&& ping is NotSent <==> event is SendFailed
            &&& event is ReceiveFailed || event is Silence ==> ping is Lost
            &&& event matches PingEvent::Received { packet, rtt_us } ==> (call_ensures(
                Pinger::is_our_echo,
                (pinger, packet),
                ours,
            ) ==> ping == (if ours {
                Ping::Echoed(rtt_us)
            } else {
                Ping::Lost
            }))
        },
{
}

// ---------------------------------------------------------------------------------------------------------------
// Log
// ---------------------------------------------------------------------------------------------------------------

/// What is written goes behind what is queued, as far as 1024 bytes go, and what is read comes from the front: up to 64
/// bytes, and at least one while there is any.
pub proof fn law_log_is_a_queue(pipe: &mut LogPipe, bytes: &[u8], reader: &mut LogPipe, buf: &mut [u8; 64], n: usize)
    ensures
        call_ensures(applog::write_bytes, (pipe, bytes), ()) && old(pipe)@.len() <= 1024 ==> {
            let all = old(pipe)@ + bytes@;
            &&& all.len() <= 1024 ==> final(pipe)@ == all
            &&& all.len() > 1024 ==> final(pipe)@ == all.take(1024)
        },
        call_ensures(LogPipe::read_packet, (reader, buf), n) && old(reader).spec_start() < 1024 ==> {
            &&& n <= 64 && n <= old(reader)@.len()
            &&& n == 0 <==> old(reader)@.len() == 0
            &&& old(reader).spec_start() + old(reader)@.len() <= 1024 && old(reader)@.len() <= 64 ==> n == old(reader)@.len()
            &&& final(buf)@.take(n as int) == old(reader)@.take(n as int)
            &&& final(reader)@ == old(reader)@.skip(n as int)
        },
{
    if old(pipe)@.len() <= 1024 {
        applog::law_log_keeps_what_fits(old(pipe)@, bytes@);
    }
    if n <= old(reader)@.len() && final(buf)@ == old(reader)@.take(n as int) + old(buf)@.skip(n as int) {
        assert(final(buf)@.take(n as int) =~= old(reader)@.take(n as int));
    }
}

/// A message that was begun, written and committed is handed out once, cut at 256 bytes; one that was not committed never
/// is.
pub proof fn law_committed_messages_are_handed_out_once(
    begun: &mut PanicStore,
    written: &mut PanicStore,
    s: &str,
    committed: &mut PanicStore,
    taken: &mut PanicStore,
    message: Option<Vec<u8>>,
    again: &mut PanicStore,
    second: Option<Vec<u8>>,
)
    ensures
        call_ensures(PanicStore::begin, (begun,), ()) && *final(begun) == *old(written) && call_ensures(
            PanicStore::write_str,
            (written, s),
            (),
        ) && *final(written) == *old(committed) && call_ensures(PanicStore::commit, (committed,), ()) && *final(committed)
            == *old(taken) && call_ensures(PanicStore::take, (taken,), message) && *final(taken) == *old(again)
            && call_ensures(PanicStore::take, (again,), second) ==> {
            &&& message is Some
            &&& s.spec_bytes().len() <= 256 ==> (message->0)@ == s.spec_bytes()
            &&& s.spec_bytes().len() > 256 ==> (message->0)@ == s.spec_bytes().take(256)
            &&& second is None
        },
        call_ensures(PanicStore::begin, (begun,), ()) && *final(begun) == *old(written) && call_ensures(
            PanicStore::write_str,
            (written, s),
            (),
        ) && *final(written) == *old(taken) && call_ensures(PanicStore::take, (taken,), message) ==> message is None,
{
    assert(Seq::<u8>::empty() + s.spec_bytes() =~= s.spec_bytes());
}

/// VBUS and the regulator's output are bits 0 and 1 of the status, and 1200 baud asks for the bootloader.
pub proof fn law_usb_state_is_two_bits(
    vbus: bool,
    ready: bool,
    rest: u32,
    state: (bool, bool),
    data_rate: u32,
    touch: bool,
)
    requires
        rest <= 0x3fff_ffff,
    ensures
        call_ensures(
            applog::usb_power,
            (((if vbus {
                1int
            } else {
                0
            }) + (if ready {
                2int
            } else {
                0
            }) + rest * 4) as u32,),
            state,
        ) ==> state == (vbus, ready),
        call_ensures(applog::is_bootloader_touch, (data_rate,), touch) ==> (touch <==> data_rate == 1200),
{
}

/// The line of the heartbeat ends in CR and LF, its number reads back, and the buffer behind it stays as it is.
pub proof fn law_heartbeat_line_reads_back(buf: &mut [u8; 32], n: u32, len: usize)
    ensures
        call_ensures(nrf_spike::format_alive, (buf, n), len) ==> {
            &&& 20 <= len <= 29
            &&& forall|i: int| 0 <= i < 17 ==> #[trigger] final(buf)@[i] == "nrf-spike: alive "@[i] as u8
            &&& ascii::dec_value(final(buf)@.subrange(17, len - 2)) == n
            &&& final(buf)@[len - 2] == 13 && final(buf)@[len - 1] == 10
            &&& forall|i: int| len <= i < 32 ==> #[trigger] final(buf)@[i] == old(buf)@[i]
        },
{
    nrf_spike::law_alive_line_reads_back(n);
    let line = nrf_spike::alive_line(n);
    let now = final(buf)@;
    if now.take(len as int) == line && len <= 32 && now.skip(len as int) == old(buf)@.skip(len as int) {
        assert(line.len() == len);
        assert forall|i: int| 0 <= i < len implies #[trigger] now[i] == line[i] by {
            assert(now.take(len as int)[i] == now[i]);
        }
        assert(now.subrange(17, len - 2) =~= line.subrange(17, len - 2));
        assert forall|i: int| len <= i < 32 implies #[trigger] now[i] == old(buf)@[i] by {
            assert(now.skip(len as int)[i - len] == now[i]);
        }
    }
}

// ---------------------------------------------------------------------------------------------------------------
// Text
// ---------------------------------------------------------------------------------------------------------------

/// What is appended leaves what was there before, and reads back as the number that was appended.
pub proof fn law_appended_numbers_read_back(buf: &mut TextBuf, n: u32, line: &mut TextBuf, m: i16)
    ensures
        call_ensures(text::put_dec, (buf, n), ()) ==> {
            let k = old(buf)@.len() as int;
            let added = text::bytes_of_text(final(buf)@.skip(k));
            &&& final(buf)@.take(k) == old(buf)@
            &&& ascii::all_digits(added)
            &&& ascii::dec_value(added) == n
        },
        call_ensures(text::put_sgn, (line, m), ()) ==> {
            let k = old(line)@.len() as int;
            &&& final(line)@.take(k) == old(line)@
            &&& final(line)@.len() >= k + 3
            &&& final(line)@[k] == (if m >= 0 {
                '+'
            } else {
                '-'
            })
        },
{
    text::law_numbers_read_back(n as nat);
    let k = old(buf)@.len() as int;
    let digits = text::dec_chars(n as nat);
    if final(buf)@ == old(buf)@ + digits {
        assert(final(buf)@.skip(k) =~= digits);
        assert(final(buf)@.take(k) =~= old(buf)@);
    }
    let j = old(line)@.len() as int;
    let shown = text::sgn_chars(m as int);
    reveal_with_fuel(text::dec_chars, 3);
    assert(shown.len() >= 3);
    if final(line)@ == old(line)@ + shown {
        assert(final(line)@.take(j) =~= old(line)@);
        assert(final(line)@[j] == shown[0]);
    }
}

// ---------------------------------------------------------------------------------------------------------------
// Diagnostics
// ---------------------------------------------------------------------------------------------------------------

/// A frame on the wire is reported when a gap ends it, with its own count, gap and axes, and printed at most once a
/// second.
pub proof fn law_reports_hold_the_frame(diag: &mut PpmDiag, now_us: u64, report: Option<Report>)
    ensures
        call_ensures(PpmDiag::edge, (diag, now_us), report) && old(diag).last_edge() is Some && 0 <= now_us
            - old(diag).last_edge()->0 <= 0xffff_ffff ==> {
            let delta = now_us - old(diag).last_edge()->0;
            let before = old(diag).progress().widths;
            &&& report is Some <==> delta >= old(diag).spec_config().sync_gap_us && before.len() > 0
            &&& report matches Some(r) ==> {
                &&& r.stats.channels == before.len()
                &&& r.stats.sync_gap_us == delta
                &&& r.stats.corrupt == old(diag).progress().corrupt
                &&& r.stats.pan_us == (if before.len() > 4 {
                    before[4]
                } else {
                    0
                })
                &&& r.stats.tilt_us == (if before.len() > 5 {
                    before[5]
                } else {
                    0
                })
                &&& r.print is Some <==> now_us - old(diag).last_print() >= 1_000_000
                &&& r.print is Some ==> final(diag).last_print() == now_us && final(diag).since_print() == 0
                &&& r.print is None ==> final(diag).last_print() == old(diag).last_print() && final(diag).since_print()
                    == old(diag).since_print() + 1
            }
        },
        call_ensures(PpmDiag::edge, (diag, now_us), report) && old(diag).last_edge() is None ==> report is None,
        call_ensures(PpmDiag::edge, (diag, now_us), report) && old(diag).spec_edges() < 0xffff_ffff ==> final(diag).spec_edges()
            == old(diag).spec_edges() + 1,
{
}

/// The lines of the diagnostic name each number behind its label.
pub proof fn law_diagnostic_lines_name_each_value(
    stats: PpmStats,
    shown: Vec<TextBuf>,
    edges: u32,
    level: Option<bool>,
    waiting: Vec<TextBuf>,
)
    ensures
        call_ensures(ppm_diag::stats_lines, (stats,), shown) ==> {
            &&& shown@.len() == 5
            &&& shown@[1]@ == "ch "@ + text::dec_chars(stats.channels as nat) + "  #"@ + text::dec_chars(stats.frames as nat)
            &&& stats.corrupt ==> shown@[2]@ == "sync "@ + text::dec_chars(stats.sync_gap_us as nat) + "us"@ + " COR"@
            &&& !stats.corrupt ==> shown@[2]@ == "sync "@ + text::dec_chars(stats.sync_gap_us as nat) + "us"@
            &&& shown@[3]@ == "ch5 pan  "@ + text::dec_chars(stats.pan_us as nat)
            &&& shown@[4]@ == "ch6 tilt "@ + text::dec_chars(stats.tilt_us as nat)
        },
        call_ensures(ppm_diag::waiting_lines, (edges, level), waiting) ==> {
            &&& waiting@.len() == 5
            &&& waiting@[1]@ == "edges "@ + text::dec_chars(edges as nat)
            &&& level == Some(true) ==> waiting@[2]@ == "idle "@ + "HIGH"@
            &&& level == Some(false) ==> waiting@[2]@ == "idle "@ + "LOW"@
            &&& level is None ==> waiting@[2]@ == "idle "@ + "?"@
        },
{
    ppm_diag::law_panel_lines_show_each_value(stats, edges, level);
    if ppm_diag::texts(shown@) == ppm_diag::stats_texts(stats) {
        assert(shown@.len() == 5);
        assert forall|i: int| 0 <= i < 5 implies #[trigger] shown@[i]@ == ppm_diag::stats_texts(stats)[i] by {
            ppm_diag::law_texts_are_the_lines(shown@, i);
        }
    }
    if ppm_diag::texts(waiting@) == ppm_diag::waiting_texts(edges, level) {
        assert(waiting@.len() == 5);
        assert forall|i: int| 0 <= i < 5 implies #[trigger] waiting@[i]@ == ppm_diag::waiting_texts(edges, level)[i] by {
            ppm_diag::law_texts_are_the_lines(waiting@, i);
        }
    }
}

/// A printed frame has a line per channel between its heading and an empty line, with the channel's number and width.
pub proof fn law_printed_frames_list_their_channels(measured: &MeasuredFrame, since_last: u32, lines: Vec<TextBuf>, i: int)
    requires
        measured.frame.count <= 16,
        0 <= i < measured.frame.count,
    ensures
        call_ensures(ppm_diag::print_frame, (measured, since_last), lines) ==> {
            let n = measured.frame.count as int;
            let plain = "frame: "@ + text::dec_chars(n as nat) + " channels | sync gap "@ + text::dec_chars(
                measured.sync_gap_us as nat,
            ) + " us | "@ + text::dec_chars(since_last as nat) + " frames since last print"@;
            &&& lines@.len() == n + 2
            &&& measured.corrupt ==> lines@[0]@ == plain + " (CORRUPT)"@
            &&& !measured.corrupt ==> lines@[0]@ == plain
            &&& lines@[i + 1]@ == "  ch"@ + text::right_chars((i + 1) as nat, 2) + ": "@ + text::right_chars(
                measured.frame.channels@[i] as nat,
                4,
            ) + " us"@
            &&& lines@[n + 1]@.len() == 0
        },
{
    ppm_diag::law_printed_frame_shows_each_channel(*measured, since_last, i);
    let n = measured.frame.count as int;
    if ppm_diag::texts(lines@) == ppm_diag::frame_lines(*measured, since_last) {
        assert(lines@.len() == n + 2);
        ppm_diag::law_texts_are_the_lines(lines@, 0);
        ppm_diag::law_texts_are_the_lines(lines@, i + 1);
        ppm_diag::law_texts_are_the_lines(lines@, n + 1);
    }
}

/// A sweep starts and ends where it was told and goes in steps of 25 us, only the last of which may be shorter.
pub proof fn law_sweeps_go_in_even_steps(from_us: u16, to_us: u16, pulses: Vec<u16>, i: int)
    ensures
        call_ensures(truck_diag::sweep_leg, (from_us, to_us), pulses) ==> {
            let n = pulses@.len() as int;
            &&& n > 0
            &&& pulses@[0] == from_us && pulses@[n - 1] == to_us
            &&& 0 <= i < n - 2 && from_us < to_us ==> pulses@[i + 1] == pulses@[i] + 25
            &&& 0 <= i < n - 2 && from_us > to_us ==> pulses@[i + 1] == pulses@[i] - 25
            &&& 0 <= i < n - 1 && from_us < to_us ==> pulses@[i] < pulses@[i + 1] <= pulses@[i] + 25
            &&& 0 <= i < n - 1 && from_us > to_us ==> pulses@[i] - 25 <= pulses@[i + 1] < pulses@[i]
        },
{
    truck_diag::law_sweep_reaches_its_target(from_us, to_us, 0);
    let pulses = truck_diag::leg(from_us, to_us);
    if 0 <= i < pulses.len() {
        truck_diag::law_sweep_reaches_its_target(from_us, to_us, i);
    }
    if 0 <= i && i + 2 < pulses.len() {
        truck_diag::law_sweep_steps_are_even(from_us, to_us, i);
    }
}

/// A triangle rises from `lo` to `hi` in a straight line, falls back along it, and repeats.
pub proof fn law_triangles_rise_and_fall(
    phase: u32,
    period: u32,
    lo: u16,
    hi: u16,
    level: u16,
    mirrored: u32,
    other: u16,
)
    requires
        period >= 2,
        period % 2 == 0,
        lo <= hi,
        0 < phase <= period / 2,
        mirrored == period - phase,
    ensures
        call_ensures(truck_diag::triangle, (phase, period, lo, hi), level) ==> 0 <= (hi - lo) * phase - (level - lo) * (period
            / 2) < period / 2,
        call_ensures(truck_diag::triangle, (phase, period, lo, hi), level) && call_ensures(
            truck_diag::triangle,
            (mirrored, period, lo, hi),
            other,
        ) ==> other == level,
{
    truck_diag::law_wave_rises_and_falls_in_a_line(phase as int, period as int, lo as int, hi as int);
}

/// The animated speed grows by 25 and starts over at 500, the link is up on every second frame, there is a fix on every
/// third, and the lap line counts the frames.
pub proof fn law_animation_counts_frames(animation: &mut Animation, status: Status)
    ensures
        call_ensures(Animation::step, (animation,), status) ==> {
            let frame = old(animation).spec_frame();
            &&& status.lap_secs == frame
            &&& status.speed_cm_s == old(animation).speed()
            &&& status.link_up <==> frame % 2 == 0
            &&& status.gps_fix <==> frame % 3 == 0
            &&& frame < 0xffff_ffff ==> final(animation).spec_frame() == frame + 1
            &&& old(animation).speed() + 25 < 500 ==> final(animation).speed() == old(animation).speed() + 25
            &&& old(animation).speed() + 25 >= 500 ==> final(animation).speed() == 0
        },
{
}

/// Render statistics come out once a second, with the frames since the last and their longest flush.
pub proof fn law_render_statistics_come_once_a_second(
    window: &mut RenderWindow,
    now_us: u64,
    flush_us: u64,
    speed: Option<RenderSpeed>,
)
    ensures
        call_ensures(RenderWindow::flushed, (window, now_us, flush_us), speed) && old(window).spec_frames() < 0xffff_ffff ==> {
            let frames = old(window).spec_frames() + 1;
            &&& speed is Some <==> now_us - old(window).start() >= 1_000_000
            &&& speed matches Some(s) ==> {
                &&& s.frames == frames && s.last_us == flush_us
                &&& s.max_us >= flush_us && s.max_us >= old(window).longest()
                &&& s.max_us == flush_us || s.max_us == old(window).longest()
                &&& final(window).start() == now_us && final(window).spec_frames() == 0 && final(window).longest() == 0
            }
            &&& speed is None ==> {
                &&& final(window).start() == old(window).start() && final(window).spec_frames() == frames
                &&& final(window).longest() >= flush_us && final(window).longest() >= old(window).longest()
                &&& final(window).longest() == flush_us || final(window).longest() == old(window).longest()
            }
        },
{
}

/// The demo's pan goes from 1000 to 2000 us and back in 150 ticks, its tilt from 1150 to 1850 and back in 100, a quarter of
/// that ahead; its signal fades from -45 to -115 dBm over 70 frames, and the link is up for 260 of 300.
pub proof fn law_demo_sweeps_its_ranges(
    phase: u32,
    pose: (u16, u16),
    elapsed_ms: u64,
    frame: u32,
    status: TruckStatus,
)
    requires
        phase <= 75,
    ensures
        call_ensures(truck_diag::demo_pose, (phase,), pose) ==> {
            &&& 0 <= 1000 * phase - (pose.0 - 1000) * 75 < 75
            &&& phase <= 25 ==> 0 <= 700 * (phase + 25) - (pose.1 - 1150) * 50 < 50
        },
        call_ensures(truck_diag::demo_status, (elapsed_ms, frame), status) ==> {
            &&& frame <= 70 ==> status.rssi == -45 - frame
            &&& status.linked <==> frame % 300 < 260
            &&& status.bars == 0 <==> !status.linked
            &&& status.bars >= 3 <==> status.linked && status.rssi > -90
        },
{
    truck_diag::law_wave_rises_and_falls_in_a_line(phase as int, 150, 1000, 2000);
    if phase <= 25 {
        truck_diag::law_wave_rises_and_falls_in_a_line(phase + 25, 100, 1150, 1850);
    }
    if frame <= 70 {
        truck_diag::law_wave_rises_and_falls_in_a_line(frame as int, 140, 45, 115);
    }
    display::law_bars_follow_the_signal(status.rssi, status.linked);
}

/// Silence on the wire drops the frame in progress and the last edge, and nothing that was counted.
pub proof fn law_silence_drops_the_frame_in_progress(diag: &mut PpmDiag)
    ensures
        call_ensures(PpmDiag::silence, (diag,), ()) ==> {
            &&& final(diag).progress().widths.len() == 0 && !final(diag).progress().corrupt
            &&& final(diag).last_edge() is None
            &&& final(diag).spec_edges() == old(diag).spec_edges() && final(diag).spec_frames() == old(diag).spec_frames()
            &&& final(diag).since_print() == old(diag).since_print() && final(diag).last_print() == old(diag).last_print()
        },
{
}

} // verus!
