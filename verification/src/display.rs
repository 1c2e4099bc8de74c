//! What a 128x64 status panel shows.
//!
//! Each layout is a list of [`Op`]s in panel coordinates, to be drawn in order on a cleared panel. [`StatusDisplay`]
//! remembers what is on the panel, so that a fixed-rate render loop touches the bus only when something changed.
//! Speed arrives in centimeters per second (the `Telemetry.speed_cm_s` unit) and is converted with integer
//! arithmetic, rounded to nearest.

use vstd::prelude::*;
use vstd::utf8::*;

use crate::buffer::TextBuf;
use crate::text;
use crate::text::{put_dec, put_int, put_pad2, put_sgn, yn};

verus! {

/// Default panel I2C address.
pub const ADDR: u8 = 0x3c;

/// Alternate address, for panels that strap SA0 high.
pub const ADDR_ALT: u8 = 0x3d;

/// Full-scale speed of the truck's speedo arc, in mph.
pub const SPEED_MAX_MPH: u32 = 60;

/// Top inset (px) of the first text line, which keeps the title off the very top row.
pub const TOP_MARGIN: i32 = 3;

/// Advance width (px) of the big face.
pub const BIG_W: i32 = 10;

/// Segments of the speedo arc.
pub const ARC_SEGMENTS: u32 = 26;

/// The address to use after trying the two standard ones in turn: the first that answered, if any did. No answer at
/// all means that the bus itself is not talking.
pub fn probe_address(default_answers: bool, alternate_answers: bool) -> (addr: Option<u8>)
    ensures
        addr == (if default_answers {
            Some(ADDR)
        } else if alternate_answers {
            Some(ADDR_ALT)
        } else {
            None
        }),
        default_answers ==> addr == Some(0x3cu8),
        !default_answers && alternate_answers ==> addr == Some(0x3du8),
        !default_answers && !alternate_answers ==> addr is None,
{
    if default_answers {
        Some(ADDR)
    } else if alternate_answers {
        Some(ADDR_ALT)
    } else {
        None
    }
}

/// The plain status: ground speed (cm/s), whether the LoRa link is live, whether the GPS has a fix, and the lap
/// stopwatch in whole seconds since the last reset.
#[derive(Copy, Clone, Debug, PartialEq, Eq, Structural)]
pub struct Status {
    pub speed_cm_s: u32,
    pub link_up: bool,
    pub gps_fix: bool,
    pub lap_secs: u32,
}

impl Default for Status {
    fn default() -> (status: Self)
        ensures
            status == (Status { speed_cm_s: 0, link_up: false, gps_fix: false, lap_secs: 0 }),
    {
        Status { speed_cm_s: 0, link_up: false, gps_fix: false, lap_secs: 0 }
    }
}

/// Status for the goggle node's "Stopwatch" layout.
#[derive(Copy, Clone, Debug, PartialEq, Eq, Structural)]
pub struct GoggleStatus {
    /// Lap number, shown as "LAP nn".
    pub lap: u32,
    /// Lap time in tenths of a second, shown as "SS.s".
    pub lap_tenths: u32,
    /// Head pan in degrees, shown as "PAN +dd".
    pub pan_deg: i16,
    /// Head tilt in degrees, shown as "+dd TLT".
    pub tilt_deg: i16,
    /// GPS satellites in view, shown as "SVnn".
    pub sats: u32,
    /// LoRa signal bars, 0..4.
    pub bars: u8,
}

impl Default for GoggleStatus {
    fn default() -> (status: Self)
        ensures
            status == (GoggleStatus { lap: 0, lap_tenths: 0, pan_deg: 0, tilt_deg: 0, sats: 0, bars: 0 }),
    {
        GoggleStatus { lap: 0, lap_tenths: 0, pan_deg: 0, tilt_deg: 0, sats: 0, bars: 0 }
    }
}

/// Status for the truck node's "Arc / Center" layout.
#[derive(Copy, Clone, Debug, PartialEq, Eq, Structural)]
pub struct TruckStatus {
    /// Ground speed in whole mph: the big center readout and the arc.
    pub mph: u32,
    /// Ground speed in whole km/h.
    pub kmh: u32,
    /// LoRa signal bars, 0..4.
    pub bars: u8,
    /// Last RSSI in dBm, shown while linked.
    pub rssi: i16,
    /// Whether the link is live.
    pub linked: bool,
}

impl Default for TruckStatus {
    fn default() -> (status: Self)
        ensures
            status == (TruckStatus { mph: 0, kmh: 0, bars: 0, rssi: 0, linked: false }),
    {
        TruckStatus { mph: 0, kmh: 0, bars: 0, rssi: 0, linked: false }
    }
}

// ---------------------------------------------------------------------------------------------------------------
// Units
// ---------------------------------------------------------------------------------------------------------------

/// cm/s in whole km/h, rounded to nearest.
pub open spec fn kmh_of(cm_s: int) -> int {
    (cm_s * 36 + 500) / 1000
}

/// cm/s in whole mph, rounded to nearest; a mile is 160 934 cm.
pub open spec fn mph_of(cm_s: int) -> int {
    (cm_s * 3600 + 80_467) / 160_934
}

/// Converts centimeters per second to whole km/h, rounded to nearest.
pub fn cm_s_to_kmh(cm_s: u32) -> (kmh: u32)
    ensures
        kmh == kmh_of(cm_s as int),
{
    ((cm_s as u64 * 36 + 500) / 1000) as u32
}

/// Converts centimeters per second to whole mph, rounded to nearest.
pub fn cm_s_to_mph(cm_s: u32) -> (mph: u32)
    ensures
        mph == mph_of(cm_s as int),
{
    ((cm_s as u64 * 3600 + 160_934 / 2) / 160_934) as u32
}

/// The signal bars of an RSSI: stronger than -75 dBm is four, then -90 and -105 step down, and anything weaker is
/// one; a down link has none whatever the last RSSI.
pub open spec fn bars_of(rssi_dbm: i16, linked: bool) -> int {
    if !linked {
        0
    } else if rssi_dbm > -75 {
        4
    } else if rssi_dbm > -90 {
        3
    } else if rssi_dbm > -105 {
        2
    } else {
        1
    }
}

/// Maps an RSSI in dBm to 0..4 signal bars, gated by link liveness.
pub fn rssi_to_bars(rssi_dbm: i16, linked: bool) -> (bars: u8)
    ensures
        bars == bars_of(rssi_dbm, linked),
        bars <= 4,
{
    if !linked {
        0
    } else if rssi_dbm > -75 {
        4
    } else if rssi_dbm > -90 {
        3
    } else if rssi_dbm > -105 {
        2
    } else {
        1
    }
}

/// A deflection of `us` from center as degrees, `num / den` degrees per microsecond, truncated toward zero and held
/// to `limit` either way.
pub open spec fn deflection(us: int, num: int, den: int, limit: int) -> int {
    let off = us - 1500;
    let deg = if off >= 0 {
        off * num / den
    } else {
        -((-off) * num / den)
    };
    if deg > limit {
        limit
    } else if deg < -limit {
        -limit
    } else {
        deg
    }
}

/// Maps a raw PPM pan pulse width (us, 1500 = center) to degrees: +-500 us spans +-45 degrees, truncated toward zero
/// and clamped to the head-tracker's range, so that a garbage width cannot print a nonsense angle.
pub fn pan_us_to_deg(us: i32) -> (deg: i16)
    ensures
        deg == deflection(us as int, 9, 100, 45),
{
    let off: i64 = us as i64 - 1500;
    let deg: i64 = if off >= 0 {
        off * 9 / 100
    } else {
        -((-off) * 9 / 100)
    };
    if deg > 45 {
        45
    } else if deg < -45 {
        -45
    } else {
        deg as i16
    }
}

/// Maps a raw PPM tilt pulse width (us) to degrees: +-500 us spans +-30 degrees, truncated toward zero and clamped.
pub fn tilt_us_to_deg(us: i32) -> (deg: i16)
    ensures
        deg == deflection(us as int, 3, 50, 30),
{
    let off: i64 = us as i64 - 1500;
    let deg: i64 = if off >= 0 {
        off * 3 / 50
    } else {
        -((-off) * 3 / 50)
    };
    if deg > 30 {
        30
    } else if deg < -30 {
        -30
    } else {
        deg as i16
    }
}

/// How many of the arc's segments a speed lights: its share of full scale (26 segments for 60 mph), rounded to
/// nearest, all of them past it.
pub open spec fn lit_of(mph: int) -> int {
    if mph >= SPEED_MAX_MPH {
        ARC_SEGMENTS as int
    } else {
        (52 * mph + 60) / 120
    }
}

/// How many of the arc's segments a speed lights.
pub fn lit_segments(mph: u32) -> (lit: u32)
    ensures
        lit == lit_of(mph as int),
        lit <= ARC_SEGMENTS,
{
    if mph >= SPEED_MAX_MPH {
        ARC_SEGMENTS
    } else {
        (52 * mph + 60) / 120
    }
}

// ---------------------------------------------------------------------------------------------------------------
// Drawing
// ---------------------------------------------------------------------------------------------------------------

/// The two faces in use: 6x10 and 10x20.
#[derive(Copy, Clone, Debug, PartialEq, Eq, Structural)]
pub enum Font {
    Small,
    Big,
}

/// Which end of a text its `x` holds; its `y` is always the top row of the glyphs.
#[derive(Copy, Clone, Debug, PartialEq, Eq, Structural)]
pub enum Align {
    Left,
    Center,
    Right,
}

/// One thing to draw, in white.
pub enum Op {
    /// A line of text.
    Text { text: TextBuf, x: i32, y: i32, font: Font, align: Align },
    /// A filled rectangle.
    Rect { x: i32, y: i32, w: i32, h: i32 },
    /// A single pixel.
    Dot { x: i32, y: i32 },
    /// A segmented arc over the upper half of a circle, the first `lit` segments from the left drawn as radial
    /// strokes from `r_in` to `r_out`, the others as ticks at the rim.
    Arc { cx: i32, cy: i32, r_out: i32, r_in: i32, lit: u32, segments: u32 },
}

/// One thing to draw, as a value.
pub enum Mark {
    Text { text: Seq<char>, x: int, y: int, font: Font, align: Align },
    Rect { x: int, y: int, w: int, h: int },
    Dot { x: int, y: int },
    Arc { cx: int, cy: int, r_out: int, r_in: int, lit: int, segments: int },
}

impl View for Op {
    type V = Mark;

    open spec fn view(&self) -> Mark {
        match *self {
            Op::Text { text, x, y, font, align } => Mark::Text {
                text: text@,
                x: x as int,
                y: y as int,
                font,
                align,
            },
            Op::Rect { x, y, w, h } => Mark::Rect { x: x as int, y: y as int, w: w as int, h: h as int },
            Op::Dot { x, y } => Mark::Dot { x: x as int, y: y as int },
            Op::Arc { cx, cy, r_out, r_in, lit, segments } => Mark::Arc {
                cx: cx as int,
                cy: cy as int,
                r_out: r_out as int,
                r_in: r_in as int,
                lit: lit as int,
                segments: segments as int,
            },
        }
    }
}

/// What a list of operations draws, in order.
pub open spec fn marks(ops: Seq<Op>) -> Seq<Mark> {
    ops.map_values(|op: Op| op@)
}

/// A text mark.
pub open spec fn label(text: Seq<char>, x: int, y: int, font: Font, align: Align) -> Mark {
    Mark::Text { text, x, y, font, align }
}

/// The height of a signal bar.
pub open spec fn bar_height(i: int) -> int {
    3 + 2 * i
}

/// One signal bar of the cell at `(x, y)`: solid where it is lit, else its left edge and a base tick.
pub open spec fn bar_marks(x: int, y: int, i: int, level: int) -> Seq<Mark> {
    let bx = x + i * 3;
    let by = y + (9 - bar_height(i));
    if i < level {
        seq![Mark::Rect { x: bx, y: by, w: 2, h: bar_height(i) }]
    } else {
        seq![Mark::Rect { x: bx, y: by, w: 1, h: bar_height(i) }, Mark::Dot { x: bx + 1, y: y + 8 }]
    }
}

/// The four signal bars of the cell at `(x, y)`, `level` of them lit.
pub open spec fn bars_marks(x: int, y: int, level: int) -> Seq<Mark> {
    bar_marks(x, y, 0, level) + bar_marks(x, y, 1, level) + bar_marks(x, y, 2, level) + bar_marks(x, y, 3, level)
}

/// The plain status: title, link and fix flags, speed in km/h, lap timer in seconds.
pub open spec fn status_marks(st: Status) -> Seq<Mark> {
    seq![
        label("FPV HEAD TRACK"@, 0, 3, Font::Small, Align::Left),
        label(
            "LINK:"@ + text::yn_chars(st.link_up) + " FIX:"@ + text::yn_chars(st.gps_fix),
            0,
            19,
            Font::Small,
            Align::Left,
        ),
        label(
            "SPD: "@ + text::dec_chars(kmh_of(st.speed_cm_s as int) as nat) + " km/h"@,
            0,
            35,
            Font::Small,
            Align::Left,
        ),
        label("LAP: "@ + text::dec_chars(st.lap_secs as nat) + "s"@, 0, 51, Font::Small, Align::Left),
    ]
}

/// The lap clock: whole seconds, a point, tenths.
pub open spec fn clock_chars(tenths: u32) -> Seq<char> {
    text::dec_chars((tenths / 10) as nat) + "."@ + text::dec_chars((tenths % 10) as nat)
}

/// The goggle layout: label, satellites and signal bars in the header; lap number, big lap clock with its unit just
/// right of it, a divider, and pan and tilt below.
pub open spec fn goggle_marks(st: GoggleStatus) -> Seq<Mark> {
    let clock = clock_chars(st.lap_tenths);
    seq![
        label("HEAD-TX"@, 2, 4, Font::Small, Align::Left),
        label("SV"@ + text::pad2_chars(st.sats as nat), 110, 4, Font::Small, Align::Right),
    ] + bars_marks(114, 3, st.bars as int) + seq![
        label("LAP "@ + text::pad2_chars(st.lap as nat), 2, 17, Font::Small, Align::Left),
        label(clock, 62, 26, Font::Big, Align::Center),
        label("s"@, 64 + (clock.len() * BIG_W) / 2 + 4, 36, Font::Small, Align::Left),
        Mark::Rect { x: 8, y: 50, w: 112, h: 1 },
        label("PAN "@ + text::sgn_chars(st.pan_deg as int), 8, 54, Font::Small, Align::Left),
        label(text::sgn_chars(st.tilt_deg as int) + " TLT"@, 120, 54, Font::Small, Align::Right),
    ]
}

/// The truck layout: label, RSSI (dashes while the link is down) and signal bars in the header; the speedo arc around
/// the big speed, with its unit and km/h below.
pub open spec fn truck_marks(st: TruckStatus) -> Seq<Mark> {
    seq![
        label("TRUCK-RX"@, 2, 4, Font::Small, Align::Left),
        label(
            if st.linked {
                text::int_chars(st.rssi as int)
            } else {
                "--"@
            },
            110,
            4,
            Font::Small,
            Align::Right,
        ),
    ] + bars_marks(114, 3, st.bars as int) + seq![
        Mark::Arc {
            cx: 64,
            cy: 60,
            r_out: 42,
            r_in: 35,
            lit: lit_of(st.mph as int),
            segments: ARC_SEGMENTS as int,
        },
        label(text::dec_chars(st.mph as nat), 64, 26, Font::Big, Align::Center),
        label("MPH"@, 64, 47, Font::Small, Align::Center),
        label(text::dec_chars(st.kmh as nat) + " KMH"@, 64, 55, Font::Small, Align::Center),
    ]
}

fn draw(ops: &mut Vec<Op>, op: Op)
    ensures
        marks(final(ops)@) == marks(old(ops)@).push(op@),
{
    ops.push(op);
    proof {
        assert(marks(ops@) =~= marks(old(ops)@).push(op@));
    }
}

fn draw_text(ops: &mut Vec<Op>, text: TextBuf, x: i32, y: i32, font: Font, align: Align)
    ensures
        marks(final(ops)@) == marks(old(ops)@).push(label(text@, x as int, y as int, font, align)),
{
    draw(ops, Op::Text { text, x, y, font, align });
}

/// An ASCII text as a buffer of its own.
fn fixed(s: &str) -> (text: TextBuf)
    requires
        is_ascii_chars(s@),
        s@.len() <= 24,
    ensures
        text@ == s@,
{
    let mut text = TextBuf::new::<24>();
    text.put(s);
    proof {
        assert(text@ =~= s@);
    }
    text
}

/// LoRa signal-strength bars in a 13x9 cell at `(x, y)`: four 2 px wide bars of increasing height, `level` of them
/// solid, the rest hollow (a 1 px left edge plus a 1 px base tick).
pub fn signal_bars(ops: &mut Vec<Op>, x: i32, y: i32, level: u8)
    requires
        x <= i32::MAX - 10,
        y <= i32::MAX - 8,
    ensures
        marks(final(ops)@) == marks(old(ops)@) + bars_marks(x as int, y as int, level as int),
{
    signal_bar(ops, x, y, 0, level);
    signal_bar(ops, x, y, 1, level);
    signal_bar(ops, x, y, 2, level);
    signal_bar(ops, x, y, 3, level);
    proof {
        assert(marks(ops@) =~= marks(old(ops)@) + bars_marks(x as int, y as int, level as int));
    }
}

fn signal_bar(ops: &mut Vec<Op>, x: i32, y: i32, i: i32, level: u8)
    requires
        x <= i32::MAX - 10,
        y <= i32::MAX - 8,
        0 <= i < 4,
    ensures
        marks(final(ops)@) == marks(old(ops)@) + bar_marks(x as int, y as int, i as int, level as int),
{
    let bx: i32 = x + i * 3;
    let bh: i32 = 3 + 2 * i;
    let by: i32 = y + (9 - bh);
    if i < level as i32 {
        draw(ops, Op::Rect { x: bx, y: by, w: 2, h: bh });
    } else {
        draw(ops, Op::Rect { x: bx, y: by, w: 1, h: bh });
        draw(ops, Op::Dot { x: bx + 1, y: y + 8 });
    }
    proof {
        assert(marks(ops@) =~= marks(old(ops)@) + bar_marks(x as int, y as int, i as int, level as int));
    }
}

fn status_ops(st: Status) -> (ops: Vec<Op>)
    ensures
        marks(ops@) == status_marks(st),
{
    let mut ops: Vec<Op> = Vec::new();
    proof {
        reveal_strlit("FPV HEAD TRACK");
        reveal_strlit("LINK:");
        reveal_strlit(" FIX:");
        reveal_strlit("SPD: ");
        reveal_strlit(" km/h");
        reveal_strlit("LAP: ");
        reveal_strlit("s");
        assert(marks(ops@) =~= Seq::<Mark>::empty());
    }
    draw_text(&mut ops, fixed("FPV HEAD TRACK"), 0, TOP_MARGIN, Font::Small, Align::Left);

    let mut flags = TextBuf::new::<24>();
    flags.put("LINK:");
    flags.put(yn(st.link_up));
    flags.put(" FIX:");
    flags.put(yn(st.gps_fix));
    proof {
        assert(flags@ =~= "LINK:"@ + text::yn_chars(st.link_up) + " FIX:"@ + text::yn_chars(st.gps_fix));
    }
    draw_text(&mut ops, flags, 0, 16 + TOP_MARGIN, Font::Small, Align::Left);

    let kmh = cm_s_to_kmh(st.speed_cm_s);
    proof {
        text::lemma_u32_chars(kmh);
        text::lemma_u32_chars(st.lap_secs);
    }
    let mut speed = TextBuf::new::<24>();
    speed.put("SPD: ");
    put_dec(&mut speed, kmh);
    speed.put(" km/h");
    proof {
        assert(speed@ =~= "SPD: "@ + text::dec_chars(kmh as nat) + " km/h"@);
    }
    draw_text(&mut ops, speed, 0, 32 + TOP_MARGIN, Font::Small, Align::Left);

    let mut lap = TextBuf::new::<24>();
    lap.put("LAP: ");
    put_dec(&mut lap, st.lap_secs);
    lap.put("s");
    proof {
        assert(lap@ =~= "LAP: "@ + text::dec_chars(st.lap_secs as nat) + "s"@);
    }
    draw_text(&mut ops, lap, 0, 48 + TOP_MARGIN, Font::Small, Align::Left);
    proof {
        assert(marks(ops@) =~= status_marks(st));
    }
    ops
}

fn clock_text(tenths: u32) -> (clock: TextBuf)
    ensures
        clock@ == clock_chars(tenths),
        3 <= clock@.len() <= 16,
{
    proof {
        reveal_strlit(".");
        text::lemma_u32_chars(tenths / 10);
        text::lemma_u32_chars(tenths % 10);
    }
    let mut clock = TextBuf::new::<16>();
    put_dec(&mut clock, tenths / 10);
    clock.put(".");
    put_dec(&mut clock, tenths % 10);
    proof {
        assert(clock@ =~= clock_chars(tenths));
    }
    clock
}

fn goggle_ops(st: GoggleStatus) -> (ops: Vec<Op>)
    ensures
        marks(ops@) == goggle_marks(st),
{
    let mut ops: Vec<Op> = Vec::new();
    proof {
        reveal_strlit("HEAD-TX");
        reveal_strlit("SV");
        reveal_strlit("LAP ");
        reveal_strlit("s");
        reveal_strlit("PAN ");
        reveal_strlit(" TLT");
        text::lemma_u32_chars(st.sats);
        text::lemma_u32_chars(st.lap);
        text::lemma_sgn_chars(st.pan_deg);
        text::lemma_sgn_chars(st.tilt_deg);
        assert(marks(ops@) =~= Seq::<Mark>::empty());
    }
    draw_text(&mut ops, fixed("HEAD-TX"), 2, 4, Font::Small, Align::Left);
    let mut sats = TextBuf::new::<16>();
    sats.put("SV");
    put_pad2(&mut sats, st.sats);
    proof {
        assert(sats@ =~= "SV"@ + text::pad2_chars(st.sats as nat));
    }
    draw_text(&mut ops, sats, 110, 4, Font::Small, Align::Right);
    signal_bars(&mut ops, 114, 3, st.bars);

    let mut lap = TextBuf::new::<16>();
    lap.put("LAP ");
    put_pad2(&mut lap, st.lap);
    proof {
        assert(lap@ =~= "LAP "@ + text::pad2_chars(st.lap as nat));
    }
    draw_text(&mut ops, lap, 2, 17, Font::Small, Align::Left);

    let clock = clock_text(st.lap_tenths);
    let chars: usize = clock.char_len();
    draw_text(&mut ops, clock, 62, 26, Font::Big, Align::Center);
    let s_x: i32 = 64 + (chars as i32 * BIG_W) / 2 + 4;
    draw_text(&mut ops, fixed("s"), s_x, 36, Font::Small, Align::Left);

    draw(&mut ops, Op::Rect { x: 8, y: 50, w: 112, h: 1 });

    let mut pan = TextBuf::new::<16>();
    pan.put("PAN ");
    put_sgn(&mut pan, st.pan_deg);
    proof {
        assert(pan@ =~= "PAN "@ + text::sgn_chars(st.pan_deg as int));
    }
    draw_text(&mut ops, pan, 8, 54, Font::Small, Align::Left);
    let mut tilt = TextBuf::new::<16>();
    put_sgn(&mut tilt, st.tilt_deg);
    tilt.put(" TLT");
    proof {
        assert(tilt@ =~= text::sgn_chars(st.tilt_deg as int) + " TLT"@);
    }
    draw_text(&mut ops, tilt, 120, 54, Font::Small, Align::Right);
    proof {
        assert(marks(ops@) =~= goggle_marks(st));
    }
    ops
}

fn truck_ops(st: TruckStatus) -> (ops: Vec<Op>)
    ensures
        marks(ops@) == truck_marks(st),
{
    let mut ops: Vec<Op> = Vec::new();
    proof {
        reveal_strlit("TRUCK-RX");
        reveal_strlit("--");
        reveal_strlit("MPH");
        reveal_strlit(" KMH");
        text::lemma_u32_chars(st.mph);
        text::lemma_u32_chars(st.kmh);
        text::lemma_int_chars(st.rssi as i32);
        assert(marks(ops@) =~= Seq::<Mark>::empty());
    }
    draw_text(&mut ops, fixed("TRUCK-RX"), 2, 4, Font::Small, Align::Left);
    let mut rssi = TextBuf::new::<16>();
    if st.linked {
        put_int(&mut rssi, st.rssi as i32);
        proof {
            assert(rssi@ =~= text::int_chars(st.rssi as int));
        }
    } else {
        rssi.put("--");
        proof {
            assert(rssi@ =~= "--"@);
        }
    }
    draw_text(&mut ops, rssi, 110, 4, Font::Small, Align::Right);
    signal_bars(&mut ops, 114, 3, st.bars);

    let lit = lit_segments(st.mph);
    draw(&mut ops, Op::Arc { cx: 64, cy: 60, r_out: 42, r_in: 35, lit, segments: ARC_SEGMENTS });

    let mut speed = TextBuf::new::<16>();
    put_dec(&mut speed, st.mph);
    proof {
        assert(speed@ =~= text::dec_chars(st.mph as nat));
    }
    draw_text(&mut ops, speed, 64, 26, Font::Big, Align::Center);
    draw_text(&mut ops, fixed("MPH"), 64, 47, Font::Small, Align::Center);
    let mut kmh = TextBuf::new::<16>();
    put_dec(&mut kmh, st.kmh);
    kmh.put(" KMH");
    proof {
        assert(kmh@ =~= text::dec_chars(st.kmh as nat) + " KMH"@);
    }
    draw_text(&mut ops, kmh, 64, 55, Font::Small, Align::Center);
    proof {
        assert(marks(ops@) =~= truck_marks(st));
    }
    ops
}

// ---------------------------------------------------------------------------------------------------------------
// What is on the panel
// ---------------------------------------------------------------------------------------------------------------

/// What a panel is known to show.
pub enum Shown {
    /// Nothing is known: before the first frame, after free-form lines, or since a flush that did not succeed.
    Unknown,
    /// The plain status.
    Plain(Status),
    /// The goggle layout.
    Goggle(GoggleStatus),
    /// The truck layout.
    Truck(TruckStatus),
}

/// The state of a status panel: the last status that was drawn and flushed, per layout. Drawing anything drops what
/// was known, and a successful flush records what is there now, so that what is remembered and what is on the panel
/// never disagree and a change of layout always redraws.
pub struct StatusDisplay {
    last: Option<Status>,
    last_goggle: Option<GoggleStatus>,
    last_truck: Option<TruckStatus>,
}

impl StatusDisplay {
    /// At most one layout is remembered.
    pub closed spec fn wf(&self) -> bool {
        &&& self.last is Some ==> self.last_goggle is None && self.last_truck is None
        &&& self.last_goggle is Some ==> self.last_truck is None
    }

    /// What the panel is known to show.
    pub closed spec fn shown(&self) -> Shown {
        if self.last is Some {
            Shown::Plain(self.last->0)
        } else if self.last_goggle is Some {
            Shown::Goggle(self.last_goggle->0)
        } else if self.last_truck is Some {
            Shown::Truck(self.last_truck->0)
        } else {
            Shown::Unknown
        }
    }

    /// A panel of which nothing is known yet.
    pub fn new() -> (display: Self)
        ensures
            display.wf(),
            display.shown() == Shown::Unknown,
    {
        StatusDisplay { last: None, last_goggle: None, last_truck: None }
    }

    fn forget(&mut self)
        ensures
            final(self).wf(),
            final(self).shown() == Shown::Unknown,
    {
        self.last = None;
        self.last_goggle = None;
        self.last_truck = None;
    }

    /// What to draw and flush to show `status`; `None` when the panel shows it already. After a successful flush,
    /// call [`rendered`](StatusDisplay::rendered).
    pub fn render(&mut self, status: Status) -> (ops: Option<Vec<Op>>)
        requires
            old(self).wf(),
        ensures
            final(self).wf(),
            ops is None <==> old(self).shown() == Shown::Plain(status),
            ops is None ==> final(self).shown() == old(self).shown(),
            ops matches Some(list) ==> marks(list@) == status_marks(status) && final(self).shown() == Shown::Unknown,
    {
        if let Some(last) = self.last {
            if last == status {
                return None;
            }
        }
        self.forget();
        Some(status_ops(status))
    }

    /// Records that the plain status was flushed to the panel.
    pub fn rendered(&mut self, status: Status)
        ensures
            final(self).wf(),
            final(self).shown() == Shown::Plain(status),
    {
        self.forget();
        self.last = Some(status);
    }

    /// What to draw and flush to show the goggle layout; `None` when the panel shows it already. After a successful
    /// flush, call [`rendered_goggle`](StatusDisplay::rendered_goggle).
    pub fn render_goggle(&mut self, st: GoggleStatus) -> (ops: Option<Vec<Op>>)
        requires
            old(self).wf(),
        ensures
            final(self).wf(),
            ops is None <==> old(self).shown() == Shown::Goggle(st),
            ops is None ==> final(self).shown() == old(self).shown(),
            ops matches Some(list) ==> marks(list@) == goggle_marks(st) && final(self).shown() == Shown::Unknown,
    {
        if let Some(last) = self.last_goggle {
            if last == st {
                return None;
            }
        }
        self.forget();
        Some(goggle_ops(st))
    }

    /// Records that the goggle layout was flushed to the panel.
    pub fn rendered_goggle(&mut self, st: GoggleStatus)
        ensures
            final(self).wf(),
            final(self).shown() == Shown::Goggle(st),
    {
        self.forget();
        self.last_goggle = Some(st);
    }

    /// What to draw and flush to show the truck layout; `None` when the panel shows it already. After a successful
    /// flush, call [`rendered_truck`](StatusDisplay::rendered_truck).
    pub fn render_truck(&mut self, st: TruckStatus) -> (ops: Option<Vec<Op>>)
        requires
            old(self).wf(),
        ensures
            final(self).wf(),
            ops is None <==> old(self).shown() == Shown::Truck(st),
            ops is None ==> final(self).shown() == old(self).shown(),
            ops matches Some(list) ==> marks(list@) == truck_marks(st) && final(self).shown() == Shown::Unknown,
    {
        if let Some(last) = self.last_truck {
            if last == st {
                return None;
            }
        }
        self.forget();
        Some(truck_ops(st))
    }

    /// Records that the truck layout was flushed to the panel.
    pub fn rendered_truck(&mut self, st: TruckStatus)
        ensures
            final(self).wf(),
            final(self).shown() == Shown::Truck(st),
    {
        self.forget();
        self.last_truck = Some(st);
    }

    /// The top row of each of `count` free-form lines, at a fixed 12 px pitch; five fit a 64 px panel. Never skipped,
    /// and whatever was on the panel has to be redrawn afterwards.
    pub fn render_lines(&mut self, count: usize) -> (tops: Vec<i32>)
        requires
            TOP_MARGIN + (count - 1) * 12 <= i32::MAX,
        ensures
            final(self).wf(),
            final(self).shown() == Shown::Unknown,
            tops@ == Seq::new(count as nat, |i: int| (TOP_MARGIN + i * 12) as i32),
            tops@.len() == count,
            forall|i: int| 0 <= i < count ==> #[trigger] tops@[i] == 3 + 12 * i,
    {
        self.forget();
        let mut tops: Vec<i32> = Vec::new();
        let mut i: usize = 0;
        while i < count
            invariant
                i <= count,
                TOP_MARGIN + (count - 1) * 12 <= i32::MAX,
                tops@ == Seq::new(i as nat, |j: int| (TOP_MARGIN + j * 12) as i32),
            decreases count - i,
        {
            tops.push(TOP_MARGIN + i as i32 * 12);
            i += 1;
            proof {
                assert(tops@ =~= Seq::new(i as nat, |j: int| (TOP_MARGIN + j * 12) as i32));
            }
        }
        tops
    }
}

// ---------------------------------------------------------------------------------------------------------------
// Laws
// ---------------------------------------------------------------------------------------------------------------

/// What a panel is known to show after one round of rendering `wanted`, whose flush, where one was due, succeeded or not.
pub open spec fn shown_after(shown: Shown, wanted: Shown, flushed: bool) -> Shown {
    if shown == wanted {
        shown
    } else if flushed {
        wanted
    } else {
        Shown::Unknown
    }
}

/// What is remembered and what is on the panel never disagree, whatever a failed flush leaves there (`torn`). A round that
/// draws nothing, or whose flush succeeds, leaves the panel showing what was wanted; after a failed flush the next round
/// draws again.
pub proof fn law_memory_agrees_with_panel(shown: Shown, panel: Shown, wanted: Shown, flushed: bool, torn: Shown)
    requires
        shown is Unknown || shown == panel,
        wanted !is Unknown,
    ensures
        ({
            let skipped = shown == wanted;
            let after = shown_after(shown, wanted, flushed);
            let panel_after = if skipped {
                panel
            } else if flushed {
                wanted
            } else {
                torn
            };
            &&& after is Unknown || after == panel_after
            &&& skipped || flushed ==> panel_after == wanted
            &&& !skipped && !flushed ==> after != wanted
        }),
{
}

/// A change of layout always redraws: no status of one layout passes for a status of another.
pub proof fn law_layout_change_redraws(plain: Status, goggle: GoggleStatus, truck: TruckStatus)
    ensures
        Shown::Plain(plain) != Shown::Goggle(goggle),
        Shown::Plain(plain) != Shown::Truck(truck),
        Shown::Goggle(goggle) != Shown::Truck(truck),
{
}

/// The arc is empty at rest, full from full scale on, and never shrinks as the speed grows.
pub proof fn law_arc_follows_speed(a: int, b: int)
    requires
        0 <= a <= b,
    ensures
        lit_of(0) == 0,
        0 <= lit_of(a) <= lit_of(b) <= ARC_SEGMENTS,
        b >= SPEED_MAX_MPH ==> lit_of(b) == ARC_SEGMENTS,
{
}

/// Angles stay in the head-tracker's range, center is zero, and equal deflections to either side show equal angles.
pub proof fn law_angles_are_symmetric_and_bounded(off: int)
    ensures
        -45 <= deflection(1500 + off, 9, 100, 45) <= 45,
        -30 <= deflection(1500 + off, 3, 50, 30) <= 30,
        deflection(1500 - off, 9, 100, 45) == -deflection(1500 + off, 9, 100, 45),
        deflection(1500 - off, 3, 50, 30) == -deflection(1500 + off, 3, 50, 30),
        deflection(1500, 9, 100, 45) == 0,
        deflection(1500, 3, 50, 30) == 0,
{
}

/// Speeds are shown to the nearest unit: a cm/s is 0.036 km/h, and a mile is 160 934 cm.
pub proof fn law_speeds_are_shown_to_the_nearest_unit(cm_s: int)
    requires
        cm_s >= 0,
    ensures
        -500 <= cm_s * 36 - kmh_of(cm_s) * 1000 < 500,
        -80_467 <= cm_s * 3600 - mph_of(cm_s) * 160_934 < 80_467,
{
}

/// More signal never shows fewer bars: the second, third and fourth bar of a live link light past -105, -90 and -75 dBm,
/// the first always, and none of a link that is down.
pub proof fn law_bars_follow_the_signal(rssi_dbm: i16, linked: bool)
    ensures
        1 <= bars_of(rssi_dbm, linked) <==> linked,
        2 <= bars_of(rssi_dbm, linked) <==> linked && rssi_dbm > -105,
        3 <= bars_of(rssi_dbm, linked) <==> linked && rssi_dbm > -90,
        4 <= bars_of(rssi_dbm, linked) <==> linked && rssi_dbm > -75,
        0 <= bars_of(rssi_dbm, linked) <= 4,
{
}

/// Angles follow the deflection from 1500 us, nine degrees per 100 us of pan and three per 50 us of tilt, rounded toward
/// zero and held to 45 and 30 degrees.
pub proof fn law_angles_follow_the_deflection(us: int)
    requires
        us >= 1500,
    ensures
        us <= 2000 ==> 0 <= (us - 1500) * 9 - deflection(us, 9, 100, 45) * 100 < 100,
        us <= 2000 ==> 0 <= (us - 1500) * 3 - deflection(us, 3, 50, 30) * 50 < 50,
        us > 2000 ==> deflection(us, 9, 100, 45) == 45 && deflection(us, 3, 50, 30) == 30,
{
}

/// The arc lights the speed's share of 26 segments for 60 mph, to the nearest segment.
pub proof fn law_arc_lights_the_share_of_the_speed(mph: int)
    requires
        mph >= 0,
    ensures
        mph <= 60 ==> -60 <= 52 * mph - 120 * lit_of(mph) <= 60,
        mph >= 60 ==> lit_of(mph) == 26,
{
}

/// The signal bars, from the left: `level` of the four solid, two pixels wide; each of the others its left edge and a tick
/// on the base line. Each bar stands three pixels right of the one before, is two pixels taller, and ends on the same line.
pub proof fn law_signal_bars_are_drawn(x: int, y: int, level: int, i: int)
    requires
        0 <= level,
        0 <= i < 4,
    ensures
        ({
            let lit = if level < 4 {
                level
            } else {
                4
            };
            let bars = bars_marks(x, y, level);
            let h = 3 + 2 * i;
            &&& bars.len() == 8 - lit
            &&& i < lit ==> bars[i] == (Mark::Rect { x: x + 3 * i, y: y + 9 - h, w: 2, h })
            &&& i >= lit ==> bars[lit + 2 * (i - lit)] == (Mark::Rect { x: x + 3 * i, y: y + 9 - h, w: 1, h })
            &&& i >= lit ==> bars[lit + 2 * (i - lit) + 1] == (Mark::Dot { x: x + 3 * i + 1, y: y + 8 })
        }),
{
    let b0 = bar_marks(x, y, 0, level);
    let b1 = bar_marks(x, y, 1, level);
    let b2 = bar_marks(x, y, 2, level);
    let b3 = bar_marks(x, y, 3, level);
    let bars = bars_marks(x, y, level);
    let n0 = b0.len() as int;
    let n1 = n0 + b1.len();
    let n2 = n1 + b2.len();
    assert(bars.subrange(0, n0) =~= b0);
    assert(bars.subrange(n0, n1) =~= b1);
    assert(bars.subrange(n1, n2) =~= b2);
    assert(bars.subrange(n2, bars.len() as int) =~= b3);
    assert(bars[0] == b0[0] && bars[n0] == b1[0] && bars[n1] == b2[0] && bars[n2] == b3[0]);
    if level <= 0 {
        assert(bars[1] == b0[1]);
    }
    if level <= 1 {
        assert(bars[n0 + 1] == b1[1]);
    }
    if level <= 2 {
        assert(bars[n1 + 1] == b2[1]);
    }
    if level <= 3 {
        assert(bars[n2 + 1] == b3[1]);
    }
}

/// The text of a mark; none where it is no text.
pub open spec fn text_of(mark: Mark) -> Seq<char> {
    match mark {
        Mark::Text { text, x, y, font, align } => text,
        _ => Seq::empty(),
    }
}

/// Whether a mark is small text at this place.
pub open spec fn small_text_at(mark: Mark, x: int, y: int, align: Align) -> bool {
    mark matches Mark::Text { text, x: tx, y: ty, font, align: ta } && tx == x && ty == y && font == Font::Small && ta
        == align
}

/// The plain status is four lines of small text from the left edge. Each flag has a letter of its own, `Y` exactly where
/// it is set; speed and lap stand as numbers between their label and their unit.
pub proof fn law_plain_status_shows_each_value(st: Status)
    ensures
        ({
            let marks = status_marks(st);
            let flags = text_of(marks[1]);
            &&& marks.len() == 4
            &&& small_text_at(marks[0], 0, 3, Align::Left)
            &&& small_text_at(marks[1], 0, 19, Align::Left)
            &&& small_text_at(marks[2], 0, 35, Align::Left)
            &&& small_text_at(marks[3], 0, 51, Align::Left)
            &&& text_of(marks[0]) == "FPV HEAD TRACK"@
            &&& flags.len() == 12
            &&& flags.take(5) == "LINK:"@
            &&& flags.subrange(6, 11) == " FIX:"@
            &&& flags[5] == 'Y' <==> st.link_up
            &&& flags[5] == 'N' <==> !st.link_up
            &&& flags[11] == 'Y' <==> st.gps_fix
            &&& flags[11] == 'N' <==> !st.gps_fix
            &&& text_of(marks[2]) == "SPD: "@ + text::dec_chars(((st.speed_cm_s * 36 + 500) / 1000) as nat) + " km/h"@
            &&& text_of(marks[3]) == "LAP: "@ + text::dec_chars(st.lap_secs as nat) + "s"@
        }),
{
    reveal_strlit("LINK:");
    reveal_strlit(" FIX:");
    let flags = text_of(status_marks(st)[1]);
    assert(flags.take(5) =~= "LINK:"@);
    assert(flags.subrange(6, 11) =~= " FIX:"@);
}

proof fn lemma_framed_number(label: Seq<char>, unit: Seq<char>, a: nat, b: nat)
    requires
        label + text::dec_chars(a) + unit == label + text::dec_chars(b) + unit,
    ensures
        a == b,
{
    let x = text::dec_chars(a);
    let y = text::dec_chars(b);
    let s = label + x + unit;
    let t = label + y + unit;
    assert(x.len() == y.len()) by {
        assert(s.len() == t.len());
    }
    assert(x =~= y) by {
        assert forall|i: int| 0 <= i < x.len() implies x[i] == y[i] by {
            assert(s[label.len() + i] == x[i]);
            assert(t[label.len() + i] == y[i]);
        }
    }
    text::law_numbers_look_different(a, b);
}

/// Two plain statuses that look the same have the same flags, the same lap and the same speed in whole km/h.
pub proof fn law_plain_statuses_look_different(a: Status, b: Status)
    requires
        status_marks(a) == status_marks(b),
    ensures
        a.link_up == b.link_up,
        a.gps_fix == b.gps_fix,
        a.lap_secs == b.lap_secs,
        kmh_of(a.speed_cm_s as int) == kmh_of(b.speed_cm_s as int),
{
    law_plain_status_shows_each_value(a);
    law_plain_status_shows_each_value(b);
    lemma_framed_number("LAP: "@, "s"@, a.lap_secs as nat, b.lap_secs as nat);
    lemma_framed_number(
        "SPD: "@,
        " km/h"@,
        kmh_of(a.speed_cm_s as int) as nat,
        kmh_of(b.speed_cm_s as int) as nat,
    );
}

/// The lap clock shows whole seconds, a point and one digit of tenths, which together are the time.
pub proof fn law_clock_shows_tenths(tenths: u32)
    ensures
        ({
            let clock = clock_chars(tenths);
            let n = clock.len() as int;
            &&& n >= 3
            &&& clock[n - 2] == '.'
            &&& clock.take(n - 2) == text::dec_chars((tenths / 10) as nat)
            &&& clock[n - 1] as int == 48 + tenths % 10
        }),
{
    reveal_strlit(".");
    text::law_numbers_read_back((tenths / 10) as nat);
    let clock = clock_chars(tenths);
    let n = clock.len() as int;
    assert(text::dec_chars((tenths % 10) as nat).len() == 1);
    assert(clock.take(n - 2) =~= text::dec_chars((tenths / 10) as nat));
}

/// The goggle layout, piece by piece: each value stands in its place with its label.
pub proof fn law_goggle_layout_shows_each_value(st: GoggleStatus)
    ensures
        ({
            let marks = goggle_marks(st);
            let lit = if st.bars < 4 {
                st.bars as int
            } else {
                4
            };
            let at = 2 + (8 - lit);
            let half = clock_chars(st.lap_tenths).len() as int * 5;
            &&& marks.len() == at + 6
            &&& small_text_at(marks[0], 2, 4, Align::Left) && text_of(marks[0]) == "HEAD-TX"@
            &&& small_text_at(marks[1], 110, 4, Align::Right) && text_of(marks[1]) == "SV"@ + text::pad2_chars(st.sats as nat)
            &&& marks.subrange(2, at) == bars_marks(114, 3, st.bars as int)
            &&& small_text_at(marks[at], 2, 17, Align::Left) && text_of(marks[at]) == "LAP "@ + text::pad2_chars(
                st.lap as nat,
            )
            &&& marks[at + 1] == (Mark::Text {
                text: clock_chars(st.lap_tenths),
                x: 62,
                y: 26,
                font: Font::Big,
                align: Align::Center,
            })
            &&& small_text_at(marks[at + 2], 68 + half, 36, Align::Left) && text_of(marks[at + 2]) == "s"@
            &&& marks[at + 3] == (Mark::Rect { x: 8, y: 50, w: 112, h: 1 })
            &&& small_text_at(marks[at + 4], 8, 54, Align::Left) && text_of(marks[at + 4]) == "PAN "@ + text::sgn_chars(
                st.pan_deg as int,
            )
            &&& small_text_at(marks[at + 5], 120, 54, Align::Right) && text_of(marks[at + 5]) == text::sgn_chars(
                st.tilt_deg as int,
            ) + " TLT"@
        }),
{
    law_signal_bars_are_drawn(114, 3, st.bars as int, 0);
    let lit = if st.bars < 4 {
        st.bars as int
    } else {
        4
    };
    let marks = goggle_marks(st);
    assert(marks.subrange(2, 2 + (8 - lit)) =~= bars_marks(114, 3, st.bars as int));
    let n = clock_chars(st.lap_tenths).len() as int;
    assert((n * 10) / 2 == n * 5);
}

/// The truck layout, piece by piece: each value stands in its place, the RSSI as dashes exactly while the link is down.
pub proof fn law_truck_layout_shows_each_value(st: TruckStatus)
    ensures
        ({
            let marks = truck_marks(st);
            let lit = if st.bars < 4 {
                st.bars as int
            } else {
                4
            };
            let at = 2 + (8 - lit);
            &&& marks.len() == at + 4
            &&& small_text_at(marks[0], 2, 4, Align::Left) && text_of(marks[0]) == "TRUCK-RX"@
            &&& small_text_at(marks[1], 110, 4, Align::Right)
            &&& st.linked ==> text_of(marks[1]) == text::int_chars(st.rssi as int)
            &&& !st.linked ==> text_of(marks[1]) == "--"@
            &&& marks.subrange(2, at) == bars_marks(114, 3, st.bars as int)
            &&& marks[at] == (Mark::Arc {
                cx: 64,
                cy: 60,
                r_out: 42,
                r_in: 35,
                lit: lit_of(st.mph as int),
                segments: 26,
            })
            &&& marks[at + 1] == (Mark::Text {
                text: text::dec_chars(st.mph as nat),
                x: 64,
                y: 26,
                font: Font::Big,
                align: Align::Center,
            })
            &&& small_text_at(marks[at + 2], 64, 47, Align::Center) && text_of(marks[at + 2]) == "MPH"@
            &&& small_text_at(marks[at + 3], 64, 55, Align::Center) && text_of(marks[at + 3]) == text::dec_chars(
                st.kmh as nat,
            ) + " KMH"@
        }),
{
    law_signal_bars_are_drawn(114, 3, st.bars as int, 0);
    let lit = if st.bars < 4 {
        st.bars as int
    } else {
        4
    };
    let marks = truck_marks(st);
    assert(marks.subrange(2, 2 + (8 - lit)) =~= bars_marks(114, 3, st.bars as int));
}

/// Two truck statuses that look the same have the same speed in both units, the same link and, while it is up, the same
/// RSSI.
pub proof fn law_truck_statuses_look_different(a: TruckStatus, b: TruckStatus)
    requires
        truck_marks(a) == truck_marks(b),
    ensures
        a.mph == b.mph,
        a.kmh == b.kmh,
        a.linked == b.linked,
        a.linked ==> a.rssi == b.rssi,
        a.bars == b.bars || (a.bars >= 4 && b.bars >= 4),
{
    law_truck_layout_shows_each_value(a);
    law_truck_layout_shows_each_value(b);
    let n = truck_marks(a).len() as int;
    assert(text_of(truck_marks(a)[n - 3]) == text_of(truck_marks(b)[n - 3]));
    text::law_numbers_look_different(a.mph as nat, b.mph as nat);
    let none = Seq::<char>::empty();
    assert(none + text::dec_chars(a.kmh as nat) + " KMH"@ =~= text::dec_chars(a.kmh as nat) + " KMH"@);
    assert(none + text::dec_chars(b.kmh as nat) + " KMH"@ =~= text::dec_chars(b.kmh as nat) + " KMH"@);
    lemma_framed_number(none, " KMH"@, a.kmh as nat, b.kmh as nat);
    lemma_rssi_text(a.rssi as int, b.rssi as int);
}

proof fn lemma_rssi_text(a: int, b: int)
    ensures
        text::int_chars(a) != "--"@,
        text::int_chars(b) != "--"@,
        text::int_chars(a) == text::int_chars(b) ==> a == b,
{
    reveal_strlit("--");
    lemma_int_text(a);
    lemma_int_text(b);
    if text::int_chars(a) == text::int_chars(b) {
        if a < 0 {
            assert(b < 0);
            assert(text::int_chars(a).skip(1) =~= text::dec_chars((-a) as nat));
            assert(text::int_chars(b).skip(1) =~= text::dec_chars((-b) as nat));
            text::law_numbers_look_different((-a) as nat, (-b) as nat);
        } else {
            text::law_numbers_look_different(a as nat, b as nat);
        }
    }
}

proof fn lemma_int_text(n: int)
    ensures
        text::int_chars(n).len() > 0,
        text::int_chars(n)[0] == '-' <==> n < 0,
        text::int_chars(n) != "--"@,
{
    reveal_strlit("--");
    let m = text::abs_nat(n);
    text::law_numbers_read_back(m);
    let digits = text::bytes_of_text(text::dec_chars(m));
    assert(crate::ascii::is_digit(digits[0]));
    assert(digits[0] == text::dec_chars(m)[0] as u8);
    if n < 0 {
        assert(text::int_chars(n)[1] == text::dec_chars(m)[0]);
    }
    if text::int_chars(n) == "--"@ {
        assert("--"@[0] == '-' && "--"@[1] == '-');
    }
}

/// Two goggle statuses that look the same are the same, but for bars past the fourth.
pub proof fn law_goggle_statuses_look_different(a: GoggleStatus, b: GoggleStatus)
    requires
        goggle_marks(a) == goggle_marks(b),
    ensures
        a.sats == b.sats,
        a.lap == b.lap,
        a.lap_tenths == b.lap_tenths,
        a.pan_deg == b.pan_deg,
        a.tilt_deg == b.tilt_deg,
        a.bars == b.bars || (a.bars >= 4 && b.bars >= 4),
{
    law_goggle_layout_shows_each_value(a);
    law_goggle_layout_shows_each_value(b);
    let x = goggle_marks(a);
    let y = goggle_marks(b);
    let n = x.len() as int;
    reveal_strlit("SV");
    reveal_strlit("LAP ");
    reveal_strlit("PAN ");
    reveal_strlit(" TLT");
    assert(text_of(x[1]).skip(2) =~= text::pad2_chars(a.sats as nat));
    assert(text_of(y[1]).skip(2) =~= text::pad2_chars(b.sats as nat));
    text::law_numbers_look_different(a.sats as nat, b.sats as nat);
    assert(text_of(x[n - 6]).skip(4) =~= text::pad2_chars(a.lap as nat));
    assert(text_of(y[n - 6]).skip(4) =~= text::pad2_chars(b.lap as nat));
    text::law_numbers_look_different(a.lap as nat, b.lap as nat);
    law_clock_shows_tenths(a.lap_tenths);
    law_clock_shows_tenths(b.lap_tenths);
    assert(text_of(x[n - 5]) == text_of(y[n - 5]));
    text::law_numbers_look_different((a.lap_tenths / 10) as nat, (b.lap_tenths / 10) as nat);
    assert(text_of(x[n - 2]).skip(4) =~= text::sgn_chars(a.pan_deg as int));
    assert(text_of(y[n - 2]).skip(4) =~= text::sgn_chars(b.pan_deg as int));
    lemma_sgn_text(a.pan_deg as int, b.pan_deg as int);
    let t = text_of(x[n - 1]);
    let u = text_of(y[n - 1]);
    assert(t.take(t.len() - 4) =~= text::sgn_chars(a.tilt_deg as int));
    assert(u.take(u.len() - 4) =~= text::sgn_chars(b.tilt_deg as int));
    lemma_sgn_text(a.tilt_deg as int, b.tilt_deg as int);
}

proof fn lemma_sgn_text(a: int, b: int)
    requires
        text::sgn_chars(a) == text::sgn_chars(b),
    ensures
        a == b,
{
    let s = text::sgn_chars(a);
    let t = text::sgn_chars(b);
    assert(s[0] == if a >= 0 {
        '+'
    } else {
        '-'
    });
    assert(t[0] == if b >= 0 {
        '+'
    } else {
        '-'
    });
    assert(s.skip(1) =~= text::pad2_chars(text::abs_nat(a)));
    assert(t.skip(1) =~= text::pad2_chars(text::abs_nat(b)));
    text::law_numbers_look_different(text::abs_nat(a), text::abs_nat(b));
}

/// What is drawn is what the operations say: as many marks as operations, in order, each with the operation's own numbers
/// and text.
pub proof fn law_operations_draw_what_they_say(ops: Seq<Op>, i: int)
    requires
        0 <= i < ops.len(),
    ensures
        marks(ops).len() == ops.len(),
        ops[i] matches Op::Text { text, x, y, font, align } ==> marks(ops)[i] == (Mark::Text {
            text: text@,
            x: x as int,
            y: y as int,
            font,
            align,
        }),
        ops[i] matches Op::Rect { x, y, w, h } ==> marks(ops)[i] == (Mark::Rect {
            x: x as int,
            y: y as int,
            w: w as int,
            h: h as int,
        }),
        ops[i] matches Op::Dot { x, y } ==> marks(ops)[i] == (Mark::Dot { x: x as int, y: y as int }),
        ops[i] matches Op::Arc { cx, cy, r_out, r_in, lit, segments } ==> marks(ops)[i] == (Mark::Arc {
            cx: cx as int,
            cy: cy as int,
            r_out: r_out as int,
            r_in: r_in as int,
            lit: lit as int,
            segments: segments as int,
        }),
{
}

} // verus!
