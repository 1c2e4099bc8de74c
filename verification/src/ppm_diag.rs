//! PPM diagnostic: what it measures of the head-tracking stream, and the lines it prints and shows.

use vstd::prelude::*;
use vstd::utf8::*;

use crate::buffer::TextBuf;
use crate::ppm_decoder;
use crate::ppm_decoder::{Config, EdgeTimer, MeasuredFrame, PpmDecoder, Progress, DEFAULT_SYNC_GAP_US, MAX_CHANNELS};
use crate::text;
use crate::text::{put_dec, put_right};

verus! {

/// Channel of the head's pan, counted from zero.
pub const PAN_INDEX: usize = 4;

/// Channel of the head's tilt, counted from zero.
pub const TILT_INDEX: usize = 5;

/// A line counts as silent when no edge came for this long.
pub const SILENCE_MS: u64 = 500;

/// At most one frame is printed per this many microseconds.
pub const PRINT_PERIOD_US: u64 = 1_000_000;

/// Snapshot of one decoded frame for the panel. `pan_us`/`tilt_us` are zero where the frame was too short to carry them;
/// `frames` is a running count, so that a climbing number confirms that frames arrive.
#[derive(Copy, Clone, Debug, PartialEq, Eq, Structural)]
pub struct PpmStats {
    pub channels: u8,
    pub sync_gap_us: u32,
    pub corrupt: bool,
    pub pan_us: u16,
    pub tilt_us: u16,
    pub frames: u32,
}

impl Default for PpmStats {
    fn default() -> (stats: Self)
        ensures
            stats == (PpmStats { channels: 0, sync_gap_us: 0, corrupt: false, pan_us: 0, tilt_us: 0, frames: 0 }),
    {
        PpmStats { channels: 0, sync_gap_us: 0, corrupt: false, pan_us: 0, tilt_us: 0, frames: 0 }
    }
}

/// The width of a channel of a frame, zero where it was not captured.
pub open spec fn width_at(widths: Seq<u16>, n: int) -> u16 {
    if n < widths.len() {
        widths[n]
    } else {
        0
    }
}

/// The snapshot of a frame.
pub open spec fn stats_of(measured: MeasuredFrame, frames: u32) -> PpmStats {
    PpmStats {
        channels: measured.frame.count as u8,
        sync_gap_us: measured.sync_gap_us,
        corrupt: measured.corrupt,
        pan_us: width_at(measured.frame.widths(), PAN_INDEX as int),
        tilt_us: width_at(measured.frame.widths(), TILT_INDEX as int),
        frames,
    }
}

fn snapshot(measured: &MeasuredFrame, frames: u32) -> (stats: PpmStats)
    requires
        measured.frame.count <= MAX_CHANNELS,
    ensures
        stats == stats_of(*measured, frames),
{
    let pan_us: u16 = match measured.frame.channel(PAN_INDEX) {
        Some(us) => us,
        None => 0,
    };
    let tilt_us: u16 = match measured.frame.channel(TILT_INDEX) {
        Some(us) => us,
        None => 0,
    };
    PpmStats {
        channels: measured.frame.count as u8,
        sync_gap_us: measured.sync_gap_us,
        corrupt: measured.corrupt,
        pan_us,
        tilt_us,
        frames,
    }
}

/// What an edge that completed a frame gives rise to.
#[derive(Copy, Clone)]
pub struct Report {
    /// The snapshot for the panel.
    pub stats: PpmStats,
    /// The frame to print and how many came since the last print, when one is due.
    pub print: Option<(MeasuredFrame, u32)>,
}

/// The measuring loop: every edge is counted and timed, every frame surfaced, spoilt ones included.
pub struct PpmDiag {
    decoder: PpmDecoder,
    timer: EdgeTimer,
    frames_seen: u32,
    frame_total: u32,
    edge_total: u32,
    last_print_us: u64,
    // When the last frame came, or was printed.
    frame_us: Ghost<u64>,
    // When the loop last heard of the clock.
    latest_us: Ghost<u64>,
}

impl PpmDiag {
    /// The decoder is well-formed and uses the default sync gap, and the times are in order. A gap closes each frame and
    /// a frame is printed once a period is over, so few frames can come in between.
    pub closed spec fn wf(&self) -> bool {
        &&& self.decoder.wf()
        &&& self.decoder.spec_config().sync_gap_us == DEFAULT_SYNC_GAP_US
        &&& self.last_print_us <= self.frame_us@ <= self.latest_us@
        &&& self.timer.last() matches Some(last) ==> self.frame_us@ <= last <= self.latest_us@
        &&& self.frames_seen * DEFAULT_SYNC_GAP_US <= self.frame_us@ - self.last_print_us < PRINT_PERIOD_US
    }

    /// When the loop last heard of the clock.
    pub closed spec fn latest(&self) -> u64 {
        self.latest_us@
    }

    /// The thresholds in force.
    pub closed spec fn spec_config(&self) -> Config {
        self.decoder.spec_config()
    }

    /// The frame in progress.
    pub closed spec fn progress(&self) -> Progress {
        self.decoder.progress()
    }

    /// All channel slots of the decoder.
    pub closed spec fn slots(&self) -> Seq<u16> {
        self.decoder.slots()
    }

    /// When the last edge came.
    pub closed spec fn last_edge(&self) -> Option<u64> {
        self.timer.last()
    }

    /// Edges counted so far, modulo 2^32.
    pub closed spec fn spec_edges(&self) -> u32 {
        self.edge_total
    }

    /// Frames counted so far, modulo 2^32.
    pub closed spec fn spec_frames(&self) -> u32 {
        self.frame_total
    }

    /// Frames since the last print.
    pub closed spec fn since_print(&self) -> u32 {
        self.frames_seen
    }

    /// When a frame was last printed.
    pub closed spec fn last_print(&self) -> u64 {
        self.last_print_us
    }

    /// A loop that starts now.
    pub fn new(now_us: u64) -> (diag: Self)
        ensures
            diag.wf(),
            diag.spec_config().sync_gap_us == 3_000,
            diag.spec_config().min_pulse_us == 500,
            diag.spec_config().max_pulse_us == 2_500,
            diag.progress() == Progress::fresh(),
            diag.slots() == Seq::new(MAX_CHANNELS as nat, |i: int| 0u16),
            diag.last_edge() is None,
            diag.spec_edges() == 0,
            diag.spec_frames() == 0,
            diag.since_print() == 0,
            diag.last_print() == now_us,
            diag.latest() == now_us,
    {
        PpmDiag {
            decoder: PpmDecoder::new(Config::default()),
            timer: EdgeTimer::new(),
            frames_seen: 0,
            frame_total: 0,
            edge_total: 0,
            last_print_us: now_us,
            frame_us: Ghost(now_us),
            latest_us: Ghost(now_us),
        }
    }

    /// Edges counted so far, modulo 2^32: a climbing count proves that the pin is transitioning.
    pub fn edges(&self) -> (edges: u32)
        ensures
            edges == self.spec_edges(),
    {
        self.edge_total
    }

    /// No edge came for a while: a partial frame is dropped, so that a resumed signal starts clean.
    pub fn silence(&mut self)
        requires
            old(self).wf(),
        ensures
            final(self).wf(),
            final(self).spec_config() == old(self).spec_config(),
            final(self).progress() == Progress::fresh(),
            final(self).slots() == old(self).slots(),
            final(self).last_edge() is None,
            final(self).spec_edges() == old(self).spec_edges(),
            final(self).spec_frames() == old(self).spec_frames(),
            final(self).since_print() == old(self).since_print(),
            final(self).last_print() == old(self).last_print(),
            final(self).latest() == old(self).latest(),
    {
        self.timer.reset();
        self.decoder.reset();
    }

    /// An edge at `now_us`. Returns a report when it completes a frame; a print is due at most once per
    /// [`PRINT_PERIOD_US`].
    pub fn edge(&mut self, now_us: u64) -> (report: Option<Report>)
        requires
            old(self).wf(),
            old(self).latest() <= now_us,
        ensures
            final(self).wf(),
            final(self).latest() == now_us,
            final(self).spec_config() == old(self).spec_config(),
            final(self).last_edge() == Some(now_us),
            final(self).spec_edges() == (old(self).spec_edges() + 1) % 0x1_0000_0000,
            old(self).last_edge() is None ==> report is None && final(self).progress() == old(self).progress()
                && final(self).slots() == old(self).slots(),
            old(self).last_edge() matches Some(last) ==> {
                let delta = (now_us - last) as u32;
                let before = old(self).progress();
                &&& final(self).progress() == before.next(old(self).spec_config(), delta)
                &&& final(self).slots() == ppm_decoder::slots_after(
                    old(self).slots(),
                    before,
                    old(self).spec_config(),
                    delta,
                )
                &&& report is Some <==> old(self).spec_config().is_sync(delta) && before.widths.len() > 0
                &&& report matches Some(r) ==> {
                    &&& r.stats.channels == before.widths.len()
                    &&& r.stats.sync_gap_us == delta
                    &&& r.stats.corrupt == before.corrupt
                    &&& r.stats.pan_us == width_at(before.widths, PAN_INDEX as int)
                    &&& r.stats.tilt_us == width_at(before.widths, TILT_INDEX as int)
                    &&& r.stats.frames == final(self).spec_frames()
                    &&& r.print is Some <==> now_us - old(self).last_print() >= PRINT_PERIOD_US
                    &&& r.print is Some <==> now_us - old(self).last_print() >= 1_000_000
                    &&& r.print matches Some((m, since)) ==> {
                        &&& m.frame.count <= MAX_CHANNELS
                        &&& m.frame.widths() == before.widths
                        &&& m.frame.channels@ == old(self).slots()
                        &&& m.corrupt == before.corrupt
                        &&& m.sync_gap_us == delta
                        &&& since == old(self).since_print() + 1
                    }
                }
            },
            report is Some ==> final(self).spec_frames() == (old(self).spec_frames() + 1) % 0x1_0000_0000,
            report is None ==> final(self).spec_frames() == old(self).spec_frames() && final(self).since_print()
                == old(self).since_print() && final(self).last_print() == old(self).last_print(),
            report matches Some(r) ==> final(self).since_print() == (if r.print is Some {
                0int
            } else {
                old(self).since_print() + 1
            }) && final(self).last_print() == (if r.print is Some {
                now_us
            } else {
                old(self).last_print()
            }),
    {
        self.edge_total = self.edge_total.wrapping_add(1);
        self.latest_us = Ghost(now_us);
        let ghost last_edge = self.timer.last();
        let delta_us = self.timer.edge(now_us)?;
        let measured = self.decoder.feed_measured(delta_us)?;
        proof {
            let elapsed: u64 = (now_us - last_edge->0) as u64;
            assert(elapsed as u32 <= elapsed) by (bit_vector);
        }
        self.frame_us = Ghost(now_us);
        self.frames_seen += 1;
        self.frame_total = self.frame_total.wrapping_add(1);
        let stats = snapshot(&measured, self.frame_total);
        let mut print: Option<(MeasuredFrame, u32)> = None;
        if now_us - self.last_print_us >= PRINT_PERIOD_US {
            print = Some((measured, self.frames_seen));
            self.last_print_us = now_us;
            self.frames_seen = 0;
        }
        Some(Report { stats, print })
    }
}

// ---------------------------------------------------------------------------------------------------------------
// Lines
// ---------------------------------------------------------------------------------------------------------------

/// What a list of lines says.
pub open spec fn texts(lines: Seq<TextBuf>) -> Seq<Seq<char>> {
    lines.map_values(|line: TextBuf| line@)
}

/// The heading of a printed frame.
pub open spec fn heading_chars(measured: MeasuredFrame, since_last: u32) -> Seq<char> {
    "frame: "@ + text::dec_chars(measured.frame.count as nat) + " channels | sync gap "@ + text::dec_chars(
        measured.sync_gap_us as nat,
    ) + " us | "@ + text::dec_chars(since_last as nat) + " frames since last print"@ + (if measured.corrupt {
        " (CORRUPT)"@
    } else {
        Seq::empty()
    })
}

/// The line of one channel; channels are numbered from 1, as goggle menus do.
pub open spec fn channel_chars(number: nat, width: u16) -> Seq<char> {
    "  ch"@ + text::right_chars(number, 2) + ": "@ + text::right_chars(width as nat, 4) + " us"@
}

/// The lines of a printed frame: the heading, one line per channel, and an empty one.
pub open spec fn frame_lines(measured: MeasuredFrame, since_last: u32) -> Seq<Seq<char>> {
    seq![heading_chars(measured, since_last)] + Seq::new(
        measured.frame.count as nat,
        |i: int| channel_chars((i + 1) as nat, measured.frame.channels@[i]),
    ) + seq![Seq::empty()]
}

fn push_line(lines: &mut Vec<TextBuf>, line: TextBuf)
    ensures
        texts(final(lines)@) == texts(old(lines)@).push(line@),
{
    lines.push(line);
    proof {
        assert(texts(lines@) =~= texts(old(lines)@).push(line@));
    }
}

fn heading(measured: &MeasuredFrame, since_last: u32) -> (line: TextBuf)
    requires
        measured.frame.count <= MAX_CHANNELS,
    ensures
        line@ == heading_chars(*measured, since_last),
{
    proof {
        reveal_strlit("frame: ");
        reveal_strlit(" channels | sync gap ");
        reveal_strlit(" us | ");
        reveal_strlit(" frames since last print");
        reveal_strlit(" (CORRUPT)");
        text::lemma_u32_chars(measured.frame.count as u32);
        text::lemma_u32_chars(measured.sync_gap_us);
        text::lemma_u32_chars(since_last);
    }
    let mut line = TextBuf::new::<112>();
    line.put("frame: ");
    put_dec(&mut line, measured.frame.count as u32);
    line.put(" channels | sync gap ");
    put_dec(&mut line, measured.sync_gap_us);
    line.put(" us | ");
    put_dec(&mut line, since_last);
    line.put(" frames since last print");
    if measured.corrupt {
        line.put(" (CORRUPT)");
    }
    proof {
        assert(line@ =~= heading_chars(*measured, since_last));
    }
    line
}

fn channel_line(number: u32, width: u16) -> (line: TextBuf)
    requires
        number <= 16,
    ensures
        line@ == channel_chars(number as nat, width),
{
    proof {
        reveal_strlit("  ch");
        reveal_strlit(": ");
        reveal_strlit(" us");
        text::lemma_u32_chars(number);
        text::lemma_u32_chars(width as u32);
    }
    let mut line = TextBuf::new::<48>();
    line.put("  ch");
    put_right(&mut line, number, 2);
    line.put(": ");
    put_right(&mut line, width as u32, 4);
    line.put(" us");
    proof {
        assert(line@ =~= channel_chars(number as nat, width));
    }
    line
}

/// The lines of one printed frame: channel count, the measured gap that closed it, how many frames came since the last
/// print, a mark on a spoilt one, and each channel's width.
pub fn print_frame(measured: &MeasuredFrame, frames_since_last: u32) -> (lines: Vec<TextBuf>)
    requires
        measured.frame.count <= MAX_CHANNELS,
    ensures
        texts(lines@) == frame_lines(*measured, frames_since_last),
{
    let mut lines: Vec<TextBuf> = Vec::new();
    proof {
        assert(texts(lines@) =~= Seq::<Seq<char>>::empty());
    }
    push_line(&mut lines, heading(measured, frames_since_last));
    let ghost head = seq![heading_chars(*measured, frames_since_last)];
    proof {
        assert(texts(lines@) =~= head + Seq::new(
            0,
            |j: int| channel_chars((j + 1) as nat, measured.frame.channels@[j]),
        ));
    }
    let mut i: usize = 0;
    while i < measured.frame.count
        invariant
            i <= measured.frame.count <= MAX_CHANNELS,
            texts(lines@) == head + Seq::new(
                i as nat,
                |j: int| channel_chars((j + 1) as nat, measured.frame.channels@[j]),
            ),
        decreases measured.frame.count - i,
    {
        push_line(&mut lines, channel_line(i as u32 + 1, measured.frame.channels[i]));
        i += 1;
        proof {
            assert(texts(lines@) =~= head + Seq::new(
                i as nat,
                |j: int| channel_chars((j + 1) as nat, measured.frame.channels@[j]),
            ));
        }
    }
    push_line(&mut lines, TextBuf::new::<4>());
    proof {
        assert(texts(lines@) =~= frame_lines(*measured, frames_since_last));
    }
    lines
}

/// The panel while no frame has been decoded: the edge count (climbing means that the pin is transitioning) and the
/// idle level of the line, if known.
pub open spec fn waiting_texts(edges: u32, level: Option<bool>) -> Seq<Seq<char>> {
    seq![
        "PPM: no frames"@,
        "edges "@ + text::dec_chars(edges as nat),
        "idle "@ + (match level {
            Some(true) => "HIGH"@,
            Some(false) => "LOW"@,
            None => "?"@,
        }),
        "climb=signal present"@,
        "0=static / no pulses"@,
    ]
}

/// The panel once frames are decoded: channel count and running frame count, the sync gap and a mark on a spoilt frame,
/// and the pan and tilt widths.
pub open spec fn stats_texts(stats: PpmStats) -> Seq<Seq<char>> {
    seq![
        "PPM diag"@,
        "ch "@ + text::dec_chars(stats.channels as nat) + "  #"@ + text::dec_chars(stats.frames as nat),
        "sync "@ + text::dec_chars(stats.sync_gap_us as nat) + "us"@ + (if stats.corrupt {
            " COR"@
        } else {
            Seq::empty()
        }),
        "ch5 pan  "@ + text::dec_chars(stats.pan_us as nat),
        "ch6 tilt "@ + text::dec_chars(stats.tilt_us as nat),
    ]
}

fn fixed(s: &str) -> (line: TextBuf)
    requires
        is_ascii_chars(s@),
        s@.len() <= 24,
    ensures
        line@ == s@,
{
    let mut line = TextBuf::new::<24>();
    line.put(s);
    proof {
        assert(line@ =~= s@);
    }
    line
}

/// A label followed by a number.
fn labelled(label: &str, n: u32) -> (line: TextBuf)
    requires
        is_ascii_chars(label@),
        label@.len() <= 14,
    ensures
        line@ == label@ + text::dec_chars(n as nat),
{
    proof {
        text::lemma_u32_chars(n);
    }
    let mut line = TextBuf::new::<24>();
    line.put(label);
    put_dec(&mut line, n);
    proof {
        assert(line@ =~= label@ + text::dec_chars(n as nat));
    }
    line
}

/// The lines to show while no frame has been decoded.
pub fn waiting_lines(edges: u32, level: Option<bool>) -> (lines: Vec<TextBuf>)
    ensures
        texts(lines@) == waiting_texts(edges, level),
{
    proof {
        reveal_strlit("PPM: no frames");
        reveal_strlit("edges ");
        reveal_strlit("idle ");
        reveal_strlit("HIGH");
        reveal_strlit("LOW");
        reveal_strlit("?");
        reveal_strlit("climb=signal present");
        reveal_strlit("0=static / no pulses");
    }
    let mut lines: Vec<TextBuf> = Vec::new();
    proof {
        assert(texts(lines@) =~= Seq::<Seq<char>>::empty());
    }
    push_line(&mut lines, fixed("PPM: no frames"));
    push_line(&mut lines, labelled("edges ", edges));
    let mut idle = TextBuf::new::<24>();
    idle.put("idle ");
    idle.put(
        match level {
            Some(true) => "HIGH",
            Some(false) => "LOW",
            None => "?",
        },
    );
    proof {
        assert(idle@ =~= waiting_texts(edges, level)[2]);
    }
    push_line(&mut lines, idle);
    push_line(&mut lines, fixed("climb=signal present"));
    push_line(&mut lines, fixed("0=static / no pulses"));
    proof {
        assert(texts(lines@) =~= waiting_texts(edges, level));
    }
    lines
}

/// The lines to show once frames are decoded.
pub fn stats_lines(stats: PpmStats) -> (lines: Vec<TextBuf>)
    ensures
        texts(lines@) == stats_texts(stats),
{
    proof {
        reveal_strlit("PPM diag");
        reveal_strlit("ch ");
        reveal_strlit("  #");
        reveal_strlit("sync ");
        reveal_strlit("us");
        reveal_strlit(" COR");
        reveal_strlit("ch5 pan  ");
        reveal_strlit("ch6 tilt ");
        text::lemma_u32_chars(stats.channels as u32);
        reveal_with_fuel(crate::ascii::pow10, 5);
        text::lemma_dec_chars(stats.channels as nat, 3);
        text::lemma_u32_chars(stats.frames);
        text::lemma_u32_chars(stats.sync_gap_us);
    }
    let mut lines: Vec<TextBuf> = Vec::new();
    proof {
        assert(texts(lines@) =~= Seq::<Seq<char>>::empty());
    }
    push_line(&mut lines, fixed("PPM diag"));
    let mut count = TextBuf::new::<24>();
    count.put("ch ");
    put_dec(&mut count, stats.channels as u32);
    count.put("  #");
    put_dec(&mut count, stats.frames);
    proof {
        assert(count@ =~= stats_texts(stats)[1]);
    }
    push_line(&mut lines, count);
    let mut sync = TextBuf::new::<24>();
    sync.put("sync ");
    put_dec(&mut sync, stats.sync_gap_us);
    sync.put("us");
    if stats.corrupt {
        sync.put(" COR");
    }
    proof {
        assert(sync@ =~= stats_texts(stats)[2]);
    }
    push_line(&mut lines, sync);
    push_line(&mut lines, labelled("ch5 pan  ", stats.pan_us as u32));
    push_line(&mut lines, labelled("ch6 tilt ", stats.tilt_us as u32));
    proof {
        assert(texts(lines@) =~= stats_texts(stats));
    }
    lines
}

// ---------------------------------------------------------------------------------------------------------------
// Laws
// ---------------------------------------------------------------------------------------------------------------

/// A snapshot holds the frame's own numbers, with channels five and six as pan and tilt, zero where the frame ends before.
pub proof fn law_snapshot_holds_the_frame(measured: MeasuredFrame, frames: u32)
    requires
        measured.frame.count <= 16,
    ensures
        ({
            let stats = stats_of(measured, frames);
            let n = measured.frame.count;
            &&& stats.channels == n
            &&& stats.sync_gap_us == measured.sync_gap_us
            &&& stats.corrupt == measured.corrupt
            &&& stats.frames == frames
            &&& n > 4 ==> stats.pan_us == measured.frame.channels@[4]
            &&& n <= 4 ==> stats.pan_us == 0
            &&& n > 5 ==> stats.tilt_us == measured.frame.channels@[5]
            &&& n <= 5 ==> stats.tilt_us == 0
        }),
{
}

/// A printed frame is a heading, one line per channel in order, and an empty line. The heading names the count, the gap and
/// the frames since the last print, and marks a spoilt frame and no other; a channel's line names its number, from 1 on,
/// and its width.
pub proof fn law_printed_frame_shows_each_channel(measured: MeasuredFrame, since_last: u32, i: int)
    requires
        measured.frame.count <= 16,
        0 <= i < measured.frame.count,
    ensures
        ({
            let lines = frame_lines(measured, since_last);
            let n = measured.frame.count as int;
            let plain = "frame: "@ + text::dec_chars(n as nat) + " channels | sync gap "@ + text::dec_chars(
                measured.sync_gap_us as nat,
            ) + " us | "@ + text::dec_chars(since_last as nat) + " frames since last print"@;
            &&& lines.len() == n + 2
            &&& measured.corrupt ==> lines[0] == plain + " (CORRUPT)"@
            &&& !measured.corrupt ==> lines[0] == plain
            &&& lines[i + 1] == "  ch"@ + text::right_chars((i + 1) as nat, 2) + ": "@ + text::right_chars(
                measured.frame.channels@[i] as nat,
                4,
            ) + " us"@
            &&& lines[n + 1].len() == 0
        }),
{
    let plain = "frame: "@ + text::dec_chars(measured.frame.count as nat) + " channels | sync gap "@ + text::dec_chars(
        measured.sync_gap_us as nat,
    ) + " us | "@ + text::dec_chars(since_last as nat) + " frames since last print"@;
    assert(plain + Seq::<char>::empty() =~= plain);
}

/// The panel of the diagnostic names each number behind its label; a spoilt frame is marked and no other, and an unknown
/// idle level is a question mark.
pub proof fn law_panel_lines_show_each_value(stats: PpmStats, edges: u32, level: Option<bool>)
    ensures
        ({
            let lines = stats_texts(stats);
            let plain = "sync "@ + text::dec_chars(stats.sync_gap_us as nat) + "us"@;
            &&& lines.len() == 5
            &&& lines[0] == "PPM diag"@
            &&& lines[1] == "ch "@ + text::dec_chars(stats.channels as nat) + "  #"@ + text::dec_chars(stats.frames as nat)
            &&& stats.corrupt ==> lines[2] == plain + " COR"@
            &&& !stats.corrupt ==> lines[2] == plain
            &&& lines[3] == "ch5 pan  "@ + text::dec_chars(stats.pan_us as nat)
            &&& lines[4] == "ch6 tilt "@ + text::dec_chars(stats.tilt_us as nat)
        }),
        ({
            let lines = waiting_texts(edges, level);
            &&& lines.len() == 5
            &&& lines[0] == "PPM: no frames"@
            &&& lines[1] == "edges "@ + text::dec_chars(edges as nat)
            &&& level == Some(true) ==> lines[2] == "idle "@ + "HIGH"@
            &&& level == Some(false) ==> lines[2] == "idle "@ + "LOW"@
            &&& level is None ==> lines[2] == "idle "@ + "?"@
            &&& lines[3] == "climb=signal present"@
            &&& lines[4] == "0=static / no pulses"@
        }),
{
    let plain = "sync "@ + text::dec_chars(stats.sync_gap_us as nat) + "us"@;
    assert(plain + Seq::<char>::empty() =~= plain);
}

/// What a list of lines says is what each line says, in order.
pub proof fn law_texts_are_the_lines(lines: Seq<TextBuf>, i: int)
    requires
        0 <= i < lines.len(),
    ensures
        texts(lines).len() == lines.len(),
        texts(lines)[i] == lines[i]@,
{
}

} // verus!
