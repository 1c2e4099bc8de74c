//! Bring-up programs of the truck: a servo sweep, an animated status panel, and a demo that moves servos and panel from
//! synthetic data.

use vstd::prelude::*;

use crate::display;
use crate::display::{cm_s_to_kmh, cm_s_to_mph, rssi_to_bars, Status, TruckStatus};
use crate::servo;

verus! {

// ---------------------------------------------------------------------------------------------------------------
// Servo sweep
// ---------------------------------------------------------------------------------------------------------------

/// Step of the sweep in microseconds.
pub const STEP_US: u16 = 25;

/// Pause between steps.
pub const STEP_DELAY_MS: u64 = 20;

/// Pause at each waypoint.
pub const DWELL_MS: u64 = 800;

/// The pulse after `i` steps from `from_us` toward `to_us`, which is not overshot.
pub open spec fn sweep_at(from_us: u16, to_us: u16, i: int) -> u16 {
    if to_us >= from_us {
        if from_us + i * STEP_US <= to_us {
            (from_us + i * STEP_US) as u16
        } else {
            to_us
        }
    } else {
        if from_us - i * STEP_US >= to_us {
            (from_us - i * STEP_US) as u16
        } else {
            to_us
        }
    }
}

/// How many steps a leg takes.
pub open spec fn sweep_steps(from_us: u16, to_us: u16) -> int {
    let span = if to_us >= from_us {
        to_us - from_us
    } else {
        from_us - to_us
    };
    (span + STEP_US - 1) / (STEP_US as int)
}

/// The pulses of one leg, both ends in.
pub open spec fn leg(from_us: u16, to_us: u16) -> Seq<u16> {
    Seq::new((sweep_steps(from_us, to_us) + 1) as nat, |i: int| sweep_at(from_us, to_us, i))
}

/// The pulses of one leg of the sweep, in order: from `from_us` to exactly `to_us` in steps of [`STEP_US`], in either
/// direction, the last step cut short where it would overshoot.
pub fn sweep_leg(from_us: u16, to_us: u16) -> (pulses: Vec<u16>)
    ensures
        pulses@ == leg(from_us, to_us),
{
    let mut pulses: Vec<u16> = Vec::new();
    let mut us: u16 = from_us;
    pulses.push(us);
    proof {
        assert(pulses@ =~= Seq::new(1, |i: int| sweep_at(from_us, to_us, i)));
    }
    let ghost mut done: int = 0;
    while us != to_us
        invariant
            0 <= done <= sweep_steps(from_us, to_us),
            us == sweep_at(from_us, to_us, done),
            us == to_us <==> done == sweep_steps(from_us, to_us),
            pulses@ == Seq::new((done + 1) as nat, |i: int| sweep_at(from_us, to_us, i)),
        decreases sweep_steps(from_us, to_us) - done,
    {
        us = if us < to_us {
            if to_us - us > STEP_US {
                us + STEP_US
            } else {
                to_us
            }
        } else {
            if us - to_us > STEP_US {
                us - STEP_US
            } else {
                to_us
            }
        };
        pulses.push(us);
        proof {
            done = done + 1;
            assert(pulses@ =~= Seq::new((done + 1) as nat, |i: int| sweep_at(from_us, to_us, i)));
        }
    }
    pulses
}

/// The legs of the sweep, in order: stand at center, down to the minimum, across to the maximum, back to center.
pub fn sweep_legs() -> (legs: [(u16, u16); 4])
    ensures
        legs@ == seq![
            (servo::CENTER_PULSE_US, servo::CENTER_PULSE_US),
            (servo::CENTER_PULSE_US, servo::MIN_PULSE_US),
            (servo::MIN_PULSE_US, servo::MAX_PULSE_US),
            (servo::MAX_PULSE_US, servo::CENTER_PULSE_US),
        ],
        legs@ == seq![(1500u16, 1500u16), (1500u16, 1000u16), (1000u16, 2000u16), (2000u16, 1500u16)],
{
    let legs: [(u16, u16); 4] = [
        (servo::CENTER_PULSE_US, servo::CENTER_PULSE_US),
        (servo::CENTER_PULSE_US, servo::MIN_PULSE_US),
        (servo::MIN_PULSE_US, servo::MAX_PULSE_US),
        (servo::MAX_PULSE_US, servo::CENTER_PULSE_US),
    ];
    proof {
        assert(legs@ =~= seq![
            (servo::CENTER_PULSE_US, servo::CENTER_PULSE_US),
            (servo::CENTER_PULSE_US, servo::MIN_PULSE_US),
            (servo::MIN_PULSE_US, servo::MAX_PULSE_US),
            (servo::MAX_PULSE_US, servo::CENTER_PULSE_US),
        ]);
    }
    legs
}

// ---------------------------------------------------------------------------------------------------------------
// Triangle waves
// ---------------------------------------------------------------------------------------------------------------

/// How far a phase is from the nearest end of its period: 0 at the ends, half the period in the middle.
pub open spec fn ramp(phase: int, period: int) -> int {
    let p = phase % period;
    if p < period / 2 {
        p
    } else {
        period - p
    }
}

/// A triangle wave: up from `lo` to `hi` over the first half of the period, back over the second.
pub open spec fn wave(phase: int, period: int, lo: int, hi: int) -> int {
    lo + (hi - lo) * ramp(phase, period) / (period / 2)
}

/// Maps a phase counter to a triangle wave in `[lo, hi]`: rises from `lo` to `hi` over the first half of `period` (which
/// is even), falls back over the second half.
pub fn triangle(phase: u32, period: u32, lo: u16, hi: u16) -> (level: u16)
    requires
        period >= 2,
        period % 2 == 0,
        lo <= hi,
        (hi - lo) * ramp(phase as int, period as int) <= u32::MAX,
    ensures
        level == wave(phase as int, period as int, lo as int, hi as int),
        lo <= level <= hi,
{
    let half: u32 = period / 2;
    let p: u32 = phase % period;
    let up: u32 = if p < half {
        p
    } else {
        period - p
    };
    let span: u32 = (hi - lo) as u32;
    proof {
        assert(up <= half);
        assert(0 <= span * up <= span * half) by (nonlinear_arith)
            requires
                0 <= up <= half,
                0 <= span,
        ;
        assert(up == ramp(phase as int, period as int));
        assert(0 <= (span * up) / (half as int) <= span) by (nonlinear_arith)
            requires
                0 <= span * up <= span * half,
                0 < half,
                0 <= span,
        ;
    }
    lo + (span * up / half) as u16
}

// ---------------------------------------------------------------------------------------------------------------
// Demo
// ---------------------------------------------------------------------------------------------------------------

/// Pan period in 50 Hz ticks.
pub const PAN_PERIOD_TICKS: u32 = 150;

/// Tilt period in 50 Hz ticks.
pub const TILT_PERIOD_TICKS: u32 = 100;

/// How far tilt runs ahead of pan, so that the two do not start together.
pub const TILT_OFFSET_TICKS: u32 = 25;

/// Least tilt pulse: a nod, not a full swing.
pub const TILT_MIN_US: u16 = 1_150;

/// Greatest tilt pulse.
pub const TILT_MAX_US: u16 = 1_850;

/// Least synthetic ground speed, about 1 mph.
pub const SPEED_MIN_CM_S: u16 = 45;

/// Greatest synthetic ground speed, about 60 mph.
pub const SPEED_MAX_CM_S: u16 = 2_682;

/// Time from the least to the greatest speed.
pub const SPEED_RAMP_MS: u32 = 10_000;

/// Strongest synthetic RSSI, without its sign.
pub const RSSI_STRONG_MAG: u16 = 45;

/// Weakest synthetic RSSI, without its sign.
pub const RSSI_WEAK_MAG: u16 = 115;

/// Period of the RSSI sweep in frames.
pub const RSSI_PERIOD_FRAMES: u32 = 140;

/// Period of the link's ups and downs in frames.
pub const LINK_CYCLE_FRAMES: u32 = 300;

/// Frames of each period in which the link is up.
pub const LINK_UP_FRAMES: u32 = 260;

/// The pan and tilt pulses of the demo at a tick: two triangle waves of different periods, so that they look like live
/// head tracking.
pub fn demo_pose(phase: u32) -> (pose: (u16, u16))
    requires
        phase <= u32::MAX - TILT_OFFSET_TICKS,
    ensures
        pose.0 == wave(phase as int, 150, servo::MIN_PULSE_US as int, servo::MAX_PULSE_US as int),
        pose.1 == wave(phase + TILT_OFFSET_TICKS, 100, TILT_MIN_US as int, TILT_MAX_US as int),
        servo::MIN_PULSE_US <= pose.0 <= servo::MAX_PULSE_US,
        TILT_MIN_US <= pose.1 <= TILT_MAX_US,
        pose.0 == wave(phase as int, 150, 1000, 2000),
        pose.1 == wave(phase + 25, 100, 1150, 1850),
{
    let pan_us = triangle(phase, PAN_PERIOD_TICKS, servo::MIN_PULSE_US, servo::MAX_PULSE_US);
    let tilt_us = triangle(phase + TILT_OFFSET_TICKS, TILT_PERIOD_TICKS, TILT_MIN_US, TILT_MAX_US);
    (pan_us, tilt_us)
}

/// The truck panel of the demo: the speed follows the clock, so that it sweeps at a steady pace whatever the frame rate;
/// RSSI and link follow the frame count, so that every frame differs from the last.
pub fn demo_status(elapsed_ms: u64, frame: u32) -> (status: TruckStatus)
    ensures
        ({
            let speed = wave((elapsed_ms % 20_000) as int, 20_000, SPEED_MIN_CM_S as int, SPEED_MAX_CM_S as int);
            &&& status.mph == display::mph_of(speed)
            &&& status.kmh == display::kmh_of(speed)
        }),
        status.rssi == -wave(frame as int, 140, RSSI_STRONG_MAG as int, RSSI_WEAK_MAG as int),
        status.rssi == -wave(frame as int, 140, 45, 115),
        status.mph == display::mph_of(wave((elapsed_ms % 20_000) as int, 20_000, 45, 2682)),
        status.kmh == display::kmh_of(wave((elapsed_ms % 20_000) as int, 20_000, 45, 2682)),
        status.linked == (frame % LINK_CYCLE_FRAMES < LINK_UP_FRAMES),
        status.linked <==> frame % 300 < 260,
        status.bars == display::bars_of(status.rssi, status.linked),
{
    let phase_ms: u32 = (elapsed_ms % 20_000) as u32;
    let speed_cm_s: u32 = triangle(phase_ms, 2 * SPEED_RAMP_MS, SPEED_MIN_CM_S, SPEED_MAX_CM_S) as u32;
    let rssi: i16 = -(triangle(frame, RSSI_PERIOD_FRAMES, RSSI_STRONG_MAG, RSSI_WEAK_MAG) as i16);
    let linked = frame % LINK_CYCLE_FRAMES < LINK_UP_FRAMES;
    TruckStatus {
        mph: cm_s_to_mph(speed_cm_s),
        kmh: cm_s_to_kmh(speed_cm_s),
        bars: rssi_to_bars(rssi, linked),
        rssi,
        linked,
    }
}

// ---------------------------------------------------------------------------------------------------------------
// Panel animation
// ---------------------------------------------------------------------------------------------------------------

/// Where the animated speed starts over.
pub const SPEED_WRAP_CM_S: u32 = 500;

/// How much the animated speed grows per frame.
pub const SPEED_STEP_CM_S: u32 = 25;

/// The animated panel: the speed counts up and wraps, the two flags toggle out of step, the lap line counts frames.
pub struct Animation {
    speed_cm_s: u32,
    frame: u32,
}

impl Animation {
    /// The speed stays below where it starts over.
    pub closed spec fn wf(&self) -> bool {
        self.speed_cm_s < SPEED_WRAP_CM_S
    }

    /// The speed of the next frame.
    pub closed spec fn speed(&self) -> u32 {
        self.speed_cm_s
    }

    /// The number of the next frame.
    pub closed spec fn spec_frame(&self) -> u32 {
        self.frame
    }

    /// The first frame, standing still.
    pub fn new() -> (animation: Self)
        ensures
            animation.wf(),
            animation.speed() == 0,
            animation.spec_frame() == 0,
    {
        Animation { speed_cm_s: 0, frame: 0 }
    }

    /// The status of this frame, and on to the next.
    pub fn step(&mut self) -> (status: Status)
        requires
            old(self).wf(),
        ensures
            final(self).wf(),
            status == (Status {
                speed_cm_s: old(self).speed(),
                link_up: old(self).spec_frame() % 2 == 0,
                gps_fix: old(self).spec_frame() % 3 == 0,
                lap_secs: old(self).spec_frame(),
            }),
            final(self).speed() == (if old(self).speed() + SPEED_STEP_CM_S >= SPEED_WRAP_CM_S {
                0
            } else {
                old(self).speed() + SPEED_STEP_CM_S
            }),
            old(self).speed() < 475 ==> final(self).speed() == old(self).speed() + 25,
            old(self).speed() >= 475 ==> final(self).speed() == 0,
            final(self).spec_frame() == (old(self).spec_frame() + 1) % 0x1_0000_0000,
    {
        let status = Status {
            speed_cm_s: self.speed_cm_s,
            link_up: self.frame % 2 == 0,
            gps_fix: self.frame % 3 == 0,
            lap_secs: self.frame,
        };
        self.speed_cm_s += SPEED_STEP_CM_S;
        if self.speed_cm_s >= SPEED_WRAP_CM_S {
            self.speed_cm_s = 0;
        }
        self.frame = self.frame.wrapping_add(1);
        status
    }
}

// ---------------------------------------------------------------------------------------------------------------
// Render speed
// ---------------------------------------------------------------------------------------------------------------

/// Render statistics come once per this many microseconds.
pub const STATS_PERIOD_US: u64 = 1_000_000;

/// How fast the panel rendered over a window: frames drawn, and the last and longest flush in microseconds.
#[derive(Copy, Clone, Debug, PartialEq, Eq, Structural)]
pub struct RenderSpeed {
    pub frames: u32,
    pub last_us: u64,
    pub max_us: u64,
}

/// The current window of render statistics.
pub struct RenderWindow {
    start_us: u64,
    frames: u32,
    max_us: u64,
}

impl RenderWindow {
    /// When the window started.
    pub closed spec fn start(&self) -> u64 {
        self.start_us
    }

    /// Frames drawn in it.
    pub closed spec fn spec_frames(&self) -> u32 {
        self.frames
    }

    /// The longest flush in it.
    pub closed spec fn longest(&self) -> u64 {
        self.max_us
    }

    /// A window that starts now.
    pub fn new(now_us: u64) -> (window: Self)
        ensures
            window.start() == now_us,
            window.spec_frames() == 0,
            window.longest() == 0,
    {
        RenderWindow { start_us: now_us, frames: 0, max_us: 0 }
    }

    /// Frames drawn in the window so far.
    pub fn frames(&self) -> (frames: u32)
        ensures
            frames == self.spec_frames(),
    {
        self.frames
    }

    /// A frame was flushed in `flush_us`. Returns the statistics once the window is [`STATS_PERIOD_US`] old, and starts
    /// the next one.
    pub fn flushed(&mut self, now_us: u64, flush_us: u64) -> (speed: Option<RenderSpeed>)
        requires
            old(self).start() <= now_us,
            old(self).spec_frames() < u32::MAX,
        ensures
            speed is Some <==> now_us - old(self).start() >= 1_000_000,
            ({
                let max_us = if flush_us > old(self).longest() {
                    flush_us
                } else {
                    old(self).longest()
                };
                let frames = (old(self).spec_frames() + 1) as u32;
                if now_us - old(self).start() >= STATS_PERIOD_US {
                    &&& speed == Some(RenderSpeed { frames, last_us: flush_us, max_us })
                    &&& final(self).start() == now_us
                    &&& final(self).spec_frames() == 0
                    &&& final(self).longest() == 0
                } else {
                    &&& speed is None
                    &&& final(self).start() == old(self).start()
                    &&& final(self).spec_frames() == frames
                    &&& final(self).longest() == max_us
                }
            }),
    {
        self.frames += 1;
        if flush_us > self.max_us {
            self.max_us = flush_us;
        }
        if now_us - self.start_us >= STATS_PERIOD_US {
            let speed = RenderSpeed { frames: self.frames, last_us: flush_us, max_us: self.max_us };
            self.start_us = now_us;
            self.frames = 0;
            self.max_us = 0;
            return Some(speed);
        }
        None
    }
}

// ---------------------------------------------------------------------------------------------------------------
// Laws
// ---------------------------------------------------------------------------------------------------------------

/// A leg starts and ends exactly where it was told, never turns back, and never steps by more than [`STEP_US`].
pub proof fn law_sweep_reaches_its_target(from_us: u16, to_us: u16, i: int)
    requires
        0 <= i < leg(from_us, to_us).len(),
    ensures
        leg(from_us, to_us)[0] == from_us,
        leg(from_us, to_us).last() == to_us,
        i + 1 < leg(from_us, to_us).len() && from_us <= to_us ==> 0 < leg(from_us, to_us)[i + 1] - leg(from_us, to_us)[i]
            <= STEP_US,
        i + 1 < leg(from_us, to_us).len() && to_us <= from_us ==> 0 < leg(from_us, to_us)[i] - leg(from_us, to_us)[i + 1]
            <= STEP_US,
{
}

/// A triangle wave stays in its band, touches both ends, and repeats after its period.
pub proof fn law_wave_stays_in_its_band(phase: int, period: int, lo: int, hi: int)
    requires
        period >= 2,
        period % 2 == 0,
        lo <= hi,
        phase >= 0,
    ensures
        lo <= wave(phase, period, lo, hi) <= hi,
        wave(0, period, lo, hi) == lo,
        wave(period / 2, period, lo, hi) == hi,
        wave(phase + period, period, lo, hi) == wave(phase, period, lo, hi),
{
    let half = period / 2;
    let up = ramp(phase, period);
    assert(0 <= phase % period < period) by (nonlinear_arith)
        requires
            period >= 2,
    ;
    assert(0 <= up <= half);
    assert(0 <= (hi - lo) * up / half <= hi - lo) by (nonlinear_arith)
        requires
            0 <= up <= half,
            0 < half,
            lo <= hi,
    ;
    assert(0int % period == 0) by (nonlinear_arith)
        requires
            period >= 2,
    ;
    assert((hi - lo) * 0 / half == 0) by (nonlinear_arith)
        requires
            0 < half,
    ;
    assert(half % period == half) by (nonlinear_arith)
        requires
            0 < half < period,
    ;
    assert((hi - lo) * half / half == hi - lo) by (nonlinear_arith)
        requires
            0 < half,
    ;
    assert((phase + period) % period == phase % period) by (nonlinear_arith)
        requires
            period >= 2,
    ;
}

/// A wave rises in a straight line over the first half of its period, from `lo` to `hi`, rounded down, and falls back along
/// the same line over the second.
pub proof fn law_wave_rises_and_falls_in_a_line(p: int, period: int, lo: int, hi: int)
    requires
        period >= 2,
        period % 2 == 0,
        lo <= hi,
        0 <= p <= period / 2,
    ensures
        ({
            let half = period / 2;
            let level = wave(p, period, lo, hi);
            &&& 0 <= (hi - lo) * p - (level - lo) * half < half
            &&& p > 0 ==> wave(period - p, period, lo, hi) == level
        }),
{
    let half = period / 2;
    assert(p % period == p) by (nonlinear_arith)
        requires
            0 <= p < period,
    ;
    let q = (hi - lo) * p / half;
    assert(0 <= (hi - lo) * p - q * half < half) by (nonlinear_arith)
        requires
            q == (hi - lo) * p / half,
            0 < half,
    ;
    if p > 0 {
        let r = period - p;
        assert(r % period == r) by (nonlinear_arith)
            requires
                0 <= r < period,
        ;
    }
}

/// A leg goes in steps of exactly 25 us, all but the last, which may be shorter.
pub proof fn law_sweep_steps_are_even(from_us: u16, to_us: u16, i: int)
    requires
        0 <= i,
        i + 2 < leg(from_us, to_us).len(),
    ensures
        from_us < to_us ==> leg(from_us, to_us)[i + 1] == leg(from_us, to_us)[i] + 25,
        from_us > to_us ==> leg(from_us, to_us)[i + 1] == leg(from_us, to_us)[i] - 25,
{
}

} // verus!
