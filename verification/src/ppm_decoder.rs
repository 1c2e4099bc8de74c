//! PPM frame decoder for the goggle head-tracking stream.
//!
//! PPM carries several RC channels on one wire as edge-positioned pulses: the edge-to-edge interval is the channel
//! value (typically about 1000-2000 us, 1500 = center), and a long "sync" gap marks the frame boundary. Feed the
//! successive intervals to [`PpmDecoder::feed`]; it returns a completed [`Frame`] each time a sync gap closes a clean
//! one. The decoder owns no hardware: the caller captures edges however it likes.

use vstd::prelude::*;

verus! {

/// Maximum channels recorded per frame. A PPM frame is usually 4-12 channels; 16 leaves headroom. A frame with more
/// pulses than this is dropped as a whole.
pub const MAX_CHANNELS: usize = 16;

/// Frame-sync threshold (microseconds). Any interval at least this long is the sync gap: it closes the current frame
/// and resets the channel index.
pub const DEFAULT_SYNC_GAP_US: u32 = 3_000;

/// Shortest interval (microseconds) that is a channel and not noise.
pub const DEFAULT_MIN_PULSE_US: u32 = 500;

/// Longest interval (microseconds) that is a channel and not noise.
pub const DEFAULT_MAX_PULSE_US: u32 = 2_500;

/// A fully decoded PPM frame: the channel widths in microseconds plus how many were captured. Only the first `count`
/// entries of `channels` are meaningful; the rest are left at their previous value.
#[derive(Copy, Clone, Debug, PartialEq, Eq)]
pub struct Frame {
    pub channels: [u16; 16],
    pub count: usize,
}

impl Frame {
    /// The widths of the channels that were captured.
    pub open spec fn widths(&self) -> Seq<u16> {
        self.channels@.take(self.count as int)
    }

    /// Returns the width (us) of channel `n` (0-based) if it was present in this frame. Goggle menus number channels
    /// from 1, so menu "channel 5 = pan" is `channel(4)` here.
    pub fn channel(&self, n: usize) -> (width: Option<u16>)
        requires
            self.count <= MAX_CHANNELS || n < MAX_CHANNELS,
        ensures
            width == (if n < self.count {
                Some(self.channels@[n as int])
            } else {
                None
            }),
    {
        if n < self.count {
            Some(self.channels[n])
        } else {
            None
        }
    }
}

/// A frame as the wire delivered it: also the gap that closed it, and whether anything in it was implausible.
#[derive(Copy, Clone, Debug, PartialEq, Eq)]
pub struct MeasuredFrame {
    pub frame: Frame,
    pub sync_gap_us: u32,
    pub corrupt: bool,
}

/// Tunable thresholds for the decoder. `Default` matches the constants above.
#[derive(Copy, Clone, Debug)]
pub struct Config {
    pub sync_gap_us: u32,
    pub min_pulse_us: u32,
    pub max_pulse_us: u32,
}

impl Default for Config {
    fn default() -> (config: Self)
        ensures
            config.sync_gap_us == DEFAULT_SYNC_GAP_US,
            config.min_pulse_us == DEFAULT_MIN_PULSE_US,
            config.max_pulse_us == DEFAULT_MAX_PULSE_US,
            config.sync_gap_us == 3_000,
            config.min_pulse_us == 500,
            config.max_pulse_us == 2_500,
    {
        Config {
            sync_gap_us: DEFAULT_SYNC_GAP_US,
            min_pulse_us: DEFAULT_MIN_PULSE_US,
            max_pulse_us: DEFAULT_MAX_PULSE_US,
        }
    }
}

impl Config {
    /// Whether an interval closes a frame.
    pub open spec fn is_sync(&self, delta_us: u32) -> bool {
        delta_us >= self.sync_gap_us
    }

    /// Whether an interval is short enough to be inside a frame and within the pulse band.
    pub open spec fn is_channel(&self, delta_us: u32) -> bool {
        !self.is_sync(delta_us) && self.min_pulse_us <= delta_us <= self.max_pulse_us
    }
}

/// The frame in progress: the widths so far, and whether it has been spoilt.
#[verifier::ext_equal]
pub struct Progress {
    pub widths: Seq<u16>,
    pub corrupt: bool,
}

impl Progress {
    /// Nothing since the last sync.
    pub open spec fn fresh() -> Progress {
        Progress { widths: Seq::empty(), corrupt: false }
    }

    /// What one interval makes of the frame in progress. A sync gap starts the next one; an implausible interval or
    /// one channel too many spoils it, for there is no telling which slot is wrong.
    pub open spec fn next(self, config: Config, delta_us: u32) -> Progress {
        if config.is_sync(delta_us) {
            Progress::fresh()
        } else if config.is_channel(delta_us) && self.widths.len() < MAX_CHANNELS {
            Progress { widths: self.widths.push(delta_us as u16), ..self }
        } else {
            Progress { corrupt: true, ..self }
        }
    }

    /// The frame that an interval completes: the widths, where it is a sync gap that closes a clean, non-empty one.
    pub open spec fn completed(self, config: Config, delta_us: u32) -> Option<Seq<u16>> {
        if config.is_sync(delta_us) && self.widths.len() > 0 && !self.corrupt {
            Some(self.widths)
        } else {
            None
        }
    }

    /// The frame in progress after a run of intervals.
    pub open spec fn after(self, config: Config, deltas: Seq<u32>) -> Progress
        decreases deltas.len(),
    {
        if deltas.len() == 0 {
            self
        } else {
            self.after(config, deltas.drop_last()).next(config, deltas.last())
        }
    }

    /// Every frame that a run of intervals completes, in order.
    pub open spec fn frames(self, config: Config, deltas: Seq<u32>) -> Seq<Seq<u16>>
        decreases deltas.len(),
    {
        if deltas.len() == 0 {
            Seq::empty()
        } else {
            let before = self.frames(config, deltas.drop_last());
            match self.after(config, deltas.drop_last()).completed(config, deltas.last()) {
                Some(widths) => before.push(widths),
                None => before,
            }
        }
    }
}

/// The channel slots after an interval: a width that counts goes into the next one.
pub open spec fn slots_after(slots: Seq<u16>, progress: Progress, config: Config, delta_us: u32) -> Seq<u16> {
    if config.is_channel(delta_us) && progress.widths.len() < MAX_CHANNELS {
        slots.update(progress.widths.len() as int, delta_us as u16)
    } else {
        slots
    }
}

/// PPM decode state machine. Construct with [`PpmDecoder::new`], then call [`feed`](PpmDecoder::feed) once per
/// interval. It accumulates channel widths until a sync gap closes the frame.
pub struct PpmDecoder {
    config: Config,
    widths: [u16; 16],
    index: usize,
    corrupt: bool,
}

impl PpmDecoder {
    /// No more channels are held than a frame has slots.
    pub closed spec fn wf(&self) -> bool {
        self.index <= MAX_CHANNELS
    }

    /// The thresholds in force.
    pub closed spec fn spec_config(&self) -> Config {
        self.config
    }

    /// The frame in progress.
    pub closed spec fn progress(&self) -> Progress {
        Progress { widths: self.widths@.take(self.index as int), corrupt: self.corrupt }
    }

    /// All channel slots, those past the frame in progress holding what an earlier frame left there.
    pub closed spec fn slots(&self) -> Seq<u16> {
        self.widths@
    }

    /// New decoder with the given thresholds.
    pub fn new(config: Config) -> (decoder: Self)
        ensures
            decoder.wf(),
            decoder.spec_config() == config,
            decoder.progress() == Progress::fresh(),
            decoder.slots() == Seq::new(MAX_CHANNELS as nat, |i: int| 0u16),
    {
        let decoder = PpmDecoder { config, widths: [0;16], index: 0, corrupt: false };
        proof {
            assert(decoder.progress() =~= Progress::fresh());
        }
        decoder
    }

    /// Feed one edge-to-edge interval, in microseconds. Returns `Some(Frame)` when this delta is a sync gap that
    /// closes a clean, non-empty frame (the frame just completed), otherwise `None`. A sync gap closing an empty
    /// frame (e.g. the first one after boot) or a frame marked corrupt returns `None` instead.
    pub fn feed(&mut self, delta_us: u32) -> (frame: Option<Frame>)
        requires
            old(self).wf(),
        ensures
            final(self).wf(),
            final(self).spec_config() == old(self).spec_config(),
            final(self).progress() == old(self).progress().next(old(self).spec_config(), delta_us),
            final(self).slots() == slots_after(
                old(self).slots(),
                old(self).progress(),
                old(self).spec_config(),
                delta_us,
            ),
            frame is Some <==> old(self).progress().completed(old(self).spec_config(), delta_us) is Some,
            frame matches Some(f) ==> f.count <= MAX_CHANNELS && f.channels@ == old(self).slots() && old(
                self,
            ).progress().completed(old(self).spec_config(), delta_us) == Some(f.widths()),
    {
        match self.feed_measured(delta_us) {
            Some(measured) => if measured.corrupt {
                None
            } else {
                Some(measured.frame)
            },
            None => None,
        }
    }

    /// As [`feed`](PpmDecoder::feed), but a sync gap also surfaces a spoilt frame, marked as such and with the gap
    /// that closed it: a diagnostic on a noisy wire then shows something rather than nothing.
    pub fn feed_measured(&mut self, delta_us: u32) -> (frame: Option<MeasuredFrame>)
        requires
            old(self).wf(),
        ensures
            final(self).wf(),
            final(self).spec_config() == old(self).spec_config(),
            final(self).progress() == old(self).progress().next(old(self).spec_config(), delta_us),
            final(self).slots() == slots_after(
                old(self).slots(),
                old(self).progress(),
                old(self).spec_config(),
                delta_us,
            ),
            frame is Some <==> old(self).spec_config().is_sync(delta_us) && old(self).progress().widths.len() > 0,
            frame matches Some(m) ==> {
                &&& m.frame.count <= MAX_CHANNELS
                &&& m.frame.channels@ == old(self).slots()
                &&& m.frame.widths() == old(self).progress().widths
                &&& m.corrupt == old(self).progress().corrupt
                &&& m.sync_gap_us == delta_us
            },
    {
        let ghost before = self.progress();
        if delta_us >= self.config.sync_gap_us {
            let count = self.index;
            let corrupt = self.corrupt;
            self.index = 0;
            self.corrupt = false;
            proof {
                assert(self.progress() =~= Progress::fresh());
            }
            if count > 0 {
                let frame = Frame { channels: self.widths, count };
                return Some(MeasuredFrame { frame, sync_gap_us: delta_us, corrupt });
            }
            return None;
        }
        if delta_us >= self.config.min_pulse_us && delta_us <= self.config.max_pulse_us && self.index < MAX_CHANNELS {
            self.widths[self.index] = #[verifier::truncate] (delta_us as u16);
            self.index += 1;
            proof {
                assert(self.progress().widths =~= before.widths.push(delta_us as u16));
            }
        } else {
            self.corrupt = true;
        }
        None
    }

    /// Number of channels accumulated in the in-progress (not yet synced) frame. Useful for diagnostics.
    pub fn pending(&self) -> (count: usize)
        requires
            self.wf(),
        ensures
            count == self.progress().widths.len(),
    {
        self.index
    }

    /// Discard any partially accumulated frame, e.g. after a long signal dropout. The next sync starts clean.
    pub fn reset(&mut self)
        ensures
            final(self).wf(),
            final(self).spec_config() == old(self).spec_config(),
            final(self).progress() == Progress::fresh(),
            final(self).slots() == old(self).slots(),
    {
        self.index = 0;
        self.corrupt = false;
        proof {
            assert(self.progress() =~= Progress::fresh());
        }
    }
}

/// Measures the intervals between successive edges.
pub struct EdgeTimer {
    last_us: Option<u64>,
}

impl EdgeTimer {
    /// When the last edge came, if any has.
    pub closed spec fn last(&self) -> Option<u64> {
        self.last_us
    }

    /// No edge seen yet.
    pub fn new() -> (timer: Self)
        ensures
            timer.last() is None,
    {
        EdgeTimer { last_us: None }
    }

    /// An edge at `now_us`: the interval since the one before, cut to 32 bits. The first edge only sets the reference.
    pub fn edge(&mut self, now_us: u64) -> (delta_us: Option<u32>)
        requires
            old(self).last() matches Some(last) ==> last <= now_us,
        ensures
            final(self).last() == Some(now_us),
            delta_us == (match old(self).last() {
                Some(last) => Some((now_us - last) as u32),
                None => None,
            }),
    {
        let delta_us: Option<u32> = match self.last_us {
            Some(last) => Some(#[verifier::truncate] ((now_us - last) as u32)),
            None => None,
        };
        self.last_us = Some(now_us);
        delta_us
    }

    /// Forgets the last edge, so that a signal that comes back starts a new reference.
    pub fn reset(&mut self)
        ensures
            final(self).last() is None,
    {
        self.last_us = None;
    }
}

// ---------------------------------------------------------------------------------------------------------------
// Laws
// ---------------------------------------------------------------------------------------------------------------

/// The widths of a run of intervals.
pub open spec fn widths_of(deltas: Seq<u32>) -> Seq<u16> {
    deltas.map_values(|d: u32| d as u16)
}

/// A sync gap wipes the slate: what came before it has no say in any later frame.
pub proof fn law_sync_starts_afresh(p: Progress, config: Config, deltas: Seq<u32>, gap: u32)
    requires
        config.is_sync(gap),
    ensures
        p.after(config, deltas.push(gap)) == Progress::fresh(),
{
    assert(deltas.push(gap).drop_last() =~= deltas);
}

/// A run of up to [`MAX_CHANNELS`] plausible intervals and a sync gap make one frame with exactly those widths.
pub proof fn law_clean_frame_is_decoded(config: Config, deltas: Seq<u32>, gap: u32)
    requires
        0 < deltas.len() <= MAX_CHANNELS,
        forall|i: int| 0 <= i < deltas.len() ==> config.is_channel(#[trigger] deltas[i]),
        config.is_sync(gap),
    ensures
        Progress::fresh().frames(config, deltas.push(gap)) == seq![widths_of(deltas)],
{
    lemma_clean_run(config, deltas);
    assert(deltas.push(gap).drop_last() =~= deltas);
    assert(Progress::fresh().frames(config, deltas) =~= Seq::<Seq<u16>>::empty());
    assert(Progress::fresh().frames(config, deltas.push(gap)) =~= seq![widths_of(deltas)]);
}

proof fn lemma_clean_run(config: Config, deltas: Seq<u32>)
    requires
        deltas.len() <= MAX_CHANNELS,
        forall|i: int| 0 <= i < deltas.len() ==> config.is_channel(#[trigger] deltas[i]),
    ensures
        Progress::fresh().after(config, deltas) == (Progress { widths: widths_of(deltas), corrupt: false }),
        Progress::fresh().frames(config, deltas).len() == 0,
    decreases deltas.len(),
{
    if deltas.len() == 0 {
        assert(widths_of(deltas) =~= Seq::<u16>::empty());
    } else {
        let init = deltas.drop_last();
        assert forall|i: int| 0 <= i < init.len() implies config.is_channel(#[trigger] init[i]) by {
            assert(config.is_channel(deltas[i]));
        }
        lemma_clean_run(config, init);
        assert(config.is_channel(deltas[deltas.len() - 1]));
        assert(widths_of(deltas) =~= widths_of(init).push(deltas.last() as u16));
    }
}

/// One implausible interval anywhere in a frame, or one interval more than [`MAX_CHANNELS`], suppresses the whole
/// frame: no shifted channel ever comes out.
pub proof fn law_spoilt_frame_is_suppressed(config: Config, deltas: Seq<u32>, gap: u32)
    requires
        forall|i: int| 0 <= i < deltas.len() ==> !config.is_sync(#[trigger] deltas[i]),
        config.is_sync(gap),
        deltas.len() > MAX_CHANNELS || exists|i: int|
            0 <= i < deltas.len() && !config.is_channel(#[trigger] deltas[i]),
    ensures
        Progress::fresh().frames(config, deltas.push(gap)) == Seq::<Seq<u16>>::empty(),
{
    lemma_spoilt_run(config, deltas);
    assert(deltas.push(gap).drop_last() =~= deltas);
    assert(Progress::fresh().frames(config, deltas) =~= Seq::<Seq<u16>>::empty());
}

proof fn lemma_spoilt_run(config: Config, deltas: Seq<u32>)
    requires
        forall|i: int| 0 <= i < deltas.len() ==> !config.is_sync(#[trigger] deltas[i]),
    ensures
        Progress::fresh().frames(config, deltas).len() == 0,
        Progress::fresh().after(config, deltas).widths.len() <= MAX_CHANNELS,
        Progress::fresh().after(config, deltas).corrupt <==> deltas.len() > MAX_CHANNELS || exists|i: int|
            0 <= i < deltas.len() && !config.is_channel(#[trigger] deltas[i]),
        !Progress::fresh().after(config, deltas).corrupt ==> Progress::fresh().after(config, deltas).widths.len()
            == deltas.len(),
    decreases deltas.len(),
{
    if deltas.len() > 0 {
        let init = deltas.drop_last();
        let n = deltas.len() - 1;
        assert forall|i: int| 0 <= i < init.len() implies !config.is_sync(#[trigger] init[i]) by {
            assert(!config.is_sync(deltas[i]));
        }
        lemma_spoilt_run(config, init);
        assert(!config.is_sync(deltas[n]));
        if exists|i: int| 0 <= i < init.len() && !config.is_channel(#[trigger] init[i]) {
            let w = choose|i: int| 0 <= i < init.len() && !config.is_channel(#[trigger] init[i]);
            assert(!config.is_channel(deltas[w]));
        }
        if !config.is_channel(deltas[n]) {
            assert(exists|i: int| 0 <= i < deltas.len() && !config.is_channel(#[trigger] deltas[i]));
        } else if exists|i: int| 0 <= i < deltas.len() && !config.is_channel(#[trigger] deltas[i]) {
            let w = choose|i: int| 0 <= i < deltas.len() && !config.is_channel(#[trigger] deltas[i]);
            assert(!config.is_channel(init[w]));
        }
    }
}

/// Any gap of at least `sync_gap_us`, however long, closes the frame before it: one to sixteen intervals that are shorter
/// than the gap and within the pulse band, and then such a gap, make exactly one frame, with each interval as the width of
/// its channel.
pub proof fn law_any_long_gap_closes_the_frame(config: Config, deltas: Seq<u32>, gap: u32)
    requires
        1 <= deltas.len() <= 16,
        forall|i: int|
            0 <= i < deltas.len() ==> config.min_pulse_us <= (#[trigger] deltas[i]) <= config.max_pulse_us && deltas[i]
                < config.sync_gap_us,
        gap >= config.sync_gap_us,
    ensures
        ({
            let frames = Progress::fresh().frames(config, deltas.push(gap));
            &&& frames.len() == 1
            &&& frames[0].len() == deltas.len()
            &&& forall|i: int|
                0 <= i < deltas.len() && deltas[i] <= 65_535 ==> #[trigger] frames[0][i] as int == deltas[i] as int
            &&& Progress::fresh().after(config, deltas.push(gap)) == Progress::fresh()
        }),
{
    assert forall|i: int| 0 <= i < deltas.len() implies config.is_channel(#[trigger] deltas[i]) by {}
    law_clean_frame_is_decoded(config, deltas, gap);
    law_sync_starts_afresh(Progress::fresh(), config, deltas, gap);
    let frames = Progress::fresh().frames(config, deltas.push(gap));
    assert(frames[0] == widths_of(deltas));
}

/// An interval shorter than the gap and outside the pulse band spoils the frame it is in, and so does a seventeenth
/// interval: no frame comes out at the gap, and the next one starts clean.
pub proof fn law_noise_spoils_the_frame(config: Config, deltas: Seq<u32>, gap: u32)
    requires
        forall|i: int| 0 <= i < deltas.len() ==> (#[trigger] deltas[i]) < config.sync_gap_us,
        gap >= config.sync_gap_us,
        deltas.len() > 16 || exists|i: int|
            0 <= i < deltas.len() && ((#[trigger] deltas[i]) < config.min_pulse_us || deltas[i] > config.max_pulse_us),
    ensures
        Progress::fresh().frames(config, deltas.push(gap)).len() == 0,
        Progress::fresh().after(config, deltas.push(gap)) == Progress::fresh(),
{
    assert forall|i: int| 0 <= i < deltas.len() implies !config.is_sync(#[trigger] deltas[i]) by {}
    if deltas.len() <= 16 {
        let w = choose|i: int|
            0 <= i < deltas.len() && ((#[trigger] deltas[i]) < config.min_pulse_us || deltas[i] > config.max_pulse_us);
        assert(!config.is_channel(deltas[w]));
    }
    law_spoilt_frame_is_suppressed(config, deltas, gap);
    law_sync_starts_afresh(Progress::fresh(), config, deltas, gap);
}

/// A stream decodes piece by piece: the frames of two runs are those of the first and then those of the second, which
/// goes on from where the first stopped.
pub proof fn law_streams_decode_piecewise(p: Progress, config: Config, x: Seq<u32>, y: Seq<u32>)
    ensures
        p.after(config, x + y) == p.after(config, x).after(config, y),
        p.frames(config, x + y) == p.frames(config, x) + p.after(config, x).frames(config, y),
    decreases y.len(),
{
    if y.len() == 0 {
        assert(x + y =~= x);
        assert(p.frames(config, x) + p.after(config, x).frames(config, y) =~= p.frames(config, x));
    } else {
        assert((x + y).drop_last() =~= x + y.drop_last());
        law_streams_decode_piecewise(p, config, x, y.drop_last());
        assert(p.frames(config, x + y) =~= p.frames(config, x) + p.after(config, x).frames(config, y));
    }
}

/// Gaps with nothing between them, as before the first frame, make no frame.
pub proof fn law_empty_sync_makes_no_frame(config: Config, gaps: Seq<u32>)
    requires
        forall|i: int| 0 <= i < gaps.len() ==> (#[trigger] gaps[i]) >= config.sync_gap_us,
    ensures
        Progress::fresh().frames(config, gaps).len() == 0,
        Progress::fresh().after(config, gaps) == Progress::fresh(),
    decreases gaps.len(),
{
    if gaps.len() > 0 {
        let init = gaps.drop_last();
        assert forall|i: int| 0 <= i < init.len() implies (#[trigger] init[i]) >= config.sync_gap_us by {
            assert(gaps[i] >= config.sync_gap_us);
        }
        law_empty_sync_makes_no_frame(config, init);
        assert(gaps[gaps.len() - 1] >= config.sync_gap_us);
    }
}

/// A frame's widths are its first `count` slots, in order, and no others.
pub proof fn law_widths_are_the_first_slots(frame: Frame, i: int)
    requires
        frame.count <= 16,
        0 <= i < frame.count,
    ensures
        frame.widths().len() == frame.count,
        frame.widths()[i] == frame.channels@[i],
{
}

/// A slot takes the width of the interval it is due for; all others keep what they hold, and nothing but a width within
/// the band and before the seventeenth goes into a slot.
pub proof fn law_slots_keep_earlier_widths(slots: Seq<u16>, p: Progress, config: Config, delta_us: u32, i: int)
    requires
        slots.len() == 16,
        0 <= i < 16,
    ensures
        ({
            let now = slots_after(slots, p, config, delta_us);
            let taken = delta_us < config.sync_gap_us && config.min_pulse_us <= delta_us <= config.max_pulse_us
                && p.widths.len() < 16;
            &&& now.len() == 16
            &&& taken && i == p.widths.len() && delta_us <= 65_535 ==> now[i] as int == delta_us as int
            &&& !taken || i != p.widths.len() ==> now[i] == slots[i]
        }),
{
}

} // verus!
