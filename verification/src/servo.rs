//! MG90S servo control as pure integer arithmetic.
//!
//! A servo reads the width of a pulse that repeats every 20 000 us (50 Hz). A PWM channel is told how much of its
//! period to stay high as a duty out of a full scale, so the duty for a pulse is `pulse_us * max_duty / 20000`.
//!
//! Electrical: an MG90S wants 4.8-6 V on a separate 5 V rail sharing ground with the board, never the 3.3 V pin.

use vstd::prelude::*;

verus! {

/// PWM period in microseconds at the 50 Hz servo frame rate (20 ms).
pub const PERIOD_US: u32 = 20_000;

/// Shortest pulse commanded (microseconds), which keeps the gimbal off its mechanical stop.
pub const MIN_PULSE_US: u16 = 1_000;

/// Pulse of the mechanical center (microseconds).
pub const CENTER_PULSE_US: u16 = 1_500;

/// Longest pulse commanded (microseconds).
pub const MAX_PULSE_US: u16 = 2_000;

/// Full scale of a PWM channel that counts microseconds: 20 000 ticks of 1 us are one 20 ms servo frame.
pub const SERVO_MAX_DUTY: u16 = 20_000;

/// The duty of a pulse: its share of the period, held to full scale.
pub open spec fn duty_of(pulse_us: u16, max_duty: u16) -> int {
    let duty = (pulse_us * max_duty) / (PERIOD_US as int);
    if duty > max_duty {
        max_duty as int
    } else {
        duty
    }
}

/// A pulse width held to the servo band.
pub open spec fn in_band(us: u16) -> u16 {
    if us < MIN_PULSE_US {
        MIN_PULSE_US
    } else if us > MAX_PULSE_US {
        MAX_PULSE_US
    } else {
        us
    }
}

/// The pulse at the fraction `value / scale` of the servo band, rounded down; a fraction past one is one, and a
/// scale of zero counts as one.
pub open spec fn pulse_at(value: u16, scale: u16) -> int {
    let s: int = if scale == 0 {
        1
    } else {
        scale as int
    };
    let v: int = if value < s {
        value as int
    } else {
        s
    };
    MIN_PULSE_US + v * (MAX_PULSE_US - MIN_PULSE_US) / s
}

/// Converts a pulse width (microseconds) to a duty for a channel whose full scale is `max_duty`. A pulse past the
/// 20 ms period saturates at full on rather than wrapping.
pub fn pulse_us_to_duty(pulse_us: u16, max_duty: u16) -> (duty: u16)
    ensures
        duty == duty_of(pulse_us, max_duty),
{
    proof {
        assert(pulse_us * max_duty <= 65_535 * 65_535) by (nonlinear_arith)
            requires
                pulse_us <= 65_535,
                max_duty <= 65_535,
        ;
        assert(0 <= pulse_us * max_duty) by (nonlinear_arith);
    }
    let duty: u32 = (pulse_us as u32 * max_duty as u32) / PERIOD_US;
    if duty > max_duty as u32 {
        max_duty
    } else {
        duty as u16
    }
}

/// Maps a raw PPM channel width to a servo pulse width. Out-of-band PPM (noise, extended-range goggles) is clamped,
/// not wrapped, so the gimbal never slams a stop.
pub fn ppm_to_pulse_us(ppm_us: u16) -> (pulse_us: u16)
    ensures
        pulse_us == in_band(ppm_us),
{
    if ppm_us < MIN_PULSE_US {
        MIN_PULSE_US
    } else if ppm_us > MAX_PULSE_US {
        MAX_PULSE_US
    } else {
        ppm_us
    }
}

/// Maps a normalized position, the fraction `value / scale`, to a servo pulse width by integer interpolation over
/// the servo band; `value` is clamped to `0..=scale` first.
pub fn normalized_to_pulse_us(value: u16, scale: u16) -> (pulse_us: u16)
    ensures
        pulse_us == pulse_at(value, scale),
        MIN_PULSE_US <= pulse_us <= MAX_PULSE_US,
{
    let scale: u16 = if scale == 0 {
        1
    } else {
        scale
    };
    let v: u32 = if value < scale {
        value as u32
    } else {
        scale as u32
    };
    let span: u32 = (MAX_PULSE_US - MIN_PULSE_US) as u32;
    let part: u32 = v * span / scale as u32;
    proof {
        assert(0 <= v * span / (scale as int) <= span) by (nonlinear_arith)
            requires
                0 <= v <= scale,
                0 < scale,
                span == 1000,
        ;
    }
    MIN_PULSE_US + part as u16
}

/// Holds a duty to full scale: a PWM counter would otherwise alias a larger one instead of saturating.
pub fn saturate_duty(duty: u16, max_duty: u16) -> (held: u16)
    ensures
        held == (if duty <= max_duty {
            duty
        } else {
            max_duty
        }),
{
    if duty <= max_duty {
        duty
    } else {
        max_duty
    }
}

/// A servo on a PWM channel. It keeps the channel's full scale and converts pulse widths and normalized values to
/// the duty that the channel is to be set to.
pub struct Servo<C> {
    channel: C,
    max_duty: u16,
}

impl<C> Servo<C> {
    /// The channel driven.
    pub closed spec fn spec_channel(&self) -> C {
        self.channel
    }

    /// The channel's full scale.
    pub closed spec fn spec_max_duty(&self) -> u16 {
        self.max_duty
    }

    /// Wraps a PWM channel that already runs at 50 Hz and whose full scale is `max_duty`.
    pub fn new(channel: C, max_duty: u16) -> (servo: Self)
        ensures
            servo.spec_channel() == channel,
            servo.spec_max_duty() == max_duty,
    {
        Servo { channel, max_duty }
    }

    /// The full-scale duty, exposed for diagnostics.
    pub fn max_duty(&self) -> (max_duty: u16)
        ensures
            max_duty == self.spec_max_duty(),
    {
        self.max_duty
    }

    /// The channel, to set a duty on it.
    pub fn channel_mut(&mut self) -> (channel: &mut C)
        ensures
            *channel == old(self).spec_channel(),
            final(self).spec_channel() == *final(channel),
            final(self).spec_max_duty() == old(self).spec_max_duty(),
    {
        &mut self.channel
    }

    /// The duty for a raw pulse width in microseconds (held to full scale).
    pub fn set_pulse_us(&self, pulse_us: u16) -> (duty: u16)
        ensures
            duty == duty_of(pulse_us, self.spec_max_duty()),
            self.spec_max_duty() == 20_000 && pulse_us <= 20_000 ==> duty == pulse_us,
    {
        pulse_us_to_duty(pulse_us, self.max_duty)
    }

    /// The duty for a raw PPM channel width (clamped to the servo pulse band first).
    pub fn set_ppm_us(&self, ppm_us: u16) -> (duty: u16)
        ensures
            duty == duty_of(in_band(ppm_us), self.spec_max_duty()),
            self.spec_max_duty() == 20_000 && 1000 <= ppm_us <= 2000 ==> duty == ppm_us,
    {
        self.set_pulse_us(ppm_to_pulse_us(ppm_us))
    }

    /// The duty for a normalized `value / scale` fraction of the band.
    pub fn set_normalized(&self, value: u16, scale: u16) -> (duty: u16)
        ensures
            duty == duty_of(pulse_at(value, scale) as u16, self.spec_max_duty()),
    {
        self.set_pulse_us(normalized_to_pulse_us(value, scale))
    }

    /// The duty for the mechanical center (1500 us), the gimbal's boot/home position.
    pub fn center(&self) -> (duty: u16)
        ensures
            duty == duty_of(CENTER_PULSE_US, self.spec_max_duty()),
            self.spec_max_duty() == 20_000 ==> duty == 1500,
    {
        self.set_pulse_us(CENTER_PULSE_US)
    }

    /// Releases the underlying PWM channel.
    pub fn release(self) -> (channel: C)
        ensures
            channel == self.spec_channel(),
    {
        self.channel
    }
}

// ---------------------------------------------------------------------------------------------------------------
// Laws
// ---------------------------------------------------------------------------------------------------------------

/// On a channel that counts microseconds the duty of a pulse is the pulse itself, up to the whole period.
pub proof fn law_microsecond_channel_is_identity(pulse_us: u16)
    ensures
        duty_of(pulse_us, SERVO_MAX_DUTY) == (if pulse_us <= SERVO_MAX_DUTY {
            pulse_us
        } else {
            SERVO_MAX_DUTY
        }),
{
}

/// A longer pulse never gets a smaller duty, and no duty passes full scale.
pub proof fn law_duty_is_monotone(a: u16, b: u16, max_duty: u16)
    requires
        a <= b,
    ensures
        duty_of(a, max_duty) <= duty_of(b, max_duty) <= max_duty,
{
    assert(a * max_duty <= b * max_duty) by (nonlinear_arith)
        requires
            a <= b,
            0 <= max_duty,
    ;
    assert((a * max_duty) / 20_000 <= (b * max_duty) / 20_000) by (nonlinear_arith)
        requires
            a * max_duty <= b * max_duty,
    ;
}

/// The band is kept whatever comes in, a width already in it is left alone, and the ends of a normalized range are
/// the ends of the band.
pub proof fn law_servo_band_is_kept(us: u16, value: u16, scale: u16)
    ensures
        MIN_PULSE_US <= in_band(us) <= MAX_PULSE_US,
        in_band(in_band(us)) == in_band(us),
        MIN_PULSE_US <= us <= MAX_PULSE_US ==> in_band(us) == us,
        MIN_PULSE_US <= pulse_at(value, scale) <= MAX_PULSE_US,
        pulse_at(0, scale) == MIN_PULSE_US,
        scale > 0 && value >= scale ==> pulse_at(value, scale) == MAX_PULSE_US,
{
    let s: int = if scale == 0 {
        1
    } else {
        scale as int
    };
    let v: int = if value < s {
        value as int
    } else {
        s
    };
    assert(0 <= v * 1000 / s <= 1000) by (nonlinear_arith)
        requires
            0 <= v <= s,
            0 < s,
    ;
    assert(0int * 1000 / s == 0) by (nonlinear_arith)
        requires
            0 < s,
    ;
    assert(s * 1000 / s == 1000) by (nonlinear_arith)
        requires
            0 < s,
    ;
}

/// The duty is the pulse's share of the 20 ms period, rounded down; a pulse longer than the period is full on.
pub proof fn law_duty_is_the_share_of_the_period(pulse_us: u16, max_duty: u16)
    ensures
        pulse_us <= 20_000 ==> 0 <= pulse_us * max_duty - duty_of(pulse_us, max_duty) * 20_000 < 20_000,
        pulse_us > 20_000 ==> duty_of(pulse_us, max_duty) == max_duty,
{
    let p = pulse_us as int;
    let m = max_duty as int;
    assert(p <= 20_000 ==> 0 <= p * m <= 20_000 * m) by (nonlinear_arith)
        requires
            0 <= p,
            0 <= m,
    ;
    assert(p > 20_000 ==> p * m >= 20_000 * m) by (nonlinear_arith)
        requires
            0 <= p,
            0 <= m,
    ;
}

/// A width from 1000 to 2000 us is driven as it is; a shorter one as 1000, a longer one as 2000.
pub proof fn law_widths_in_the_band_are_driven_as_they_are(us: u16)
    ensures
        1000 <= us <= 2000 ==> in_band(us) == us,
        us < 1000 ==> in_band(us) == 1000,
        us > 2000 ==> in_band(us) == 2000,
{
}

/// A fraction `value / scale` lies at that fraction of the band from 1000 to 2000 us, rounded down; past one it lies at the
/// end.
pub proof fn law_fractions_lie_along_the_band(value: u16, scale: u16)
    requires
        scale > 0,
    ensures
        value <= scale ==> 0 <= value * 1000 - (pulse_at(value, scale) - 1000) * scale < scale,
        value > scale ==> pulse_at(value, scale) == 2000,
        pulse_at(value, 0) == pulse_at(value, 1),
{
    let s = scale as int;
    let v: int = if value < scale {
        value as int
    } else {
        s
    };
    let q = v * 1000 / s;
    assert(0 <= v * 1000 - q * s < s) by (nonlinear_arith)
        requires
            q == v * 1000 / s,
            0 < s,
    ;
    assert(s * 1000 / s == 1000) by (nonlinear_arith)
        requires
            0 < s,
    ;
}

} // verus!
