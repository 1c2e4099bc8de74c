//! Truck node: receive pan/tilt over LoRa, drive two gimbal servos at a fixed rate, read a GPS for ground speed, and
//! reply with telemetry. The slave half of the half-duplex link.
//!
//! The node's tasks wait on the radio, the clock and the UART; what they decide in between is here. Times are
//! milliseconds of one monotonic clock.

use vstd::prelude::*;

use crate::buffer::ByteBuf;
use crate::display::{cm_s_to_kmh, cm_s_to_mph, rssi_to_bars, TruckStatus};
use crate::display;
use crate::geo::Nav;
use crate::gps::GpsFix;
use crate::link_id;
use crate::link_id::{deframe, Binding};
use crate::lora_link::{LinkHealth, LinkState, Serviced};
use crate::lora_link;
use crate::proto;
use crate::proto::{read_control, Control, Telemetry, TELEMETRY_MAX_LEN};
use crate::servo;

verus! {

/// Servo refresh period.
pub const SERVO_PERIOD_MS: u64 = 20;

/// Pulse-width change per degree of IMU home tilt.
pub const US_PER_DEGREE: i32 = 11;

/// Largest plausible mount tilt in degrees; a boot angle beyond it is no trim.
pub const MAX_HOME_DEG: i32 = 30;

/// Loss-of-signal failsafe: without a fresh `Control` for this long the gimbal is recentered.
pub const CONTROL_TIMEOUT_MS: u64 = 1_000;

/// Bound on one receive window.
pub const RX_TIMEOUT_MS: u64 = 200;

/// Bound on the telemetry reply's transmission.
pub const TX_TIMEOUT_MS: u64 = 30;

/// Transmit power of the reply.
pub const TX_POWER_DBM: i32 = 10;

/// Faults in a row after which the radio is re-initialized.
pub const REINIT_AFTER_MISSES: u32 = 5;

/// Faults in a row after which it is re-initialized again while disconnected.
pub const REINIT_BACKOFF_MISSES: u32 = 25;

/// Panel refresh period.
pub const OLED_PERIOD_MS: u64 = 250;

/// The link reads down without a `Control` for this long.
pub const LINK_TIMEOUT_MS: u64 = 500;

// ---------------------------------------------------------------------------------------------------------------
// Radio
// ---------------------------------------------------------------------------------------------------------------

/// What a received frame turned out to be.
#[derive(Copy, Clone, Debug, PartialEq, Eq, Structural)]
pub enum Heard {
    /// Of another pair, or corrupt.
    Foreign,
    /// Of this pair, but no `Control`.
    Garbage,
    /// A command.
    Command(Control),
}

/// What a received frame is to a node with this binding.
pub open spec fn heard(link_id: Seq<u8>, crc_init: u16, frame: Seq<u8>) -> Heard {
    if !link_id::is_frame(link_id, crc_init, frame) {
        Heard::Foreign
    } else {
        match proto::control_in(frame.subrange(2, frame.len() - 2)) {
            Some(control) => Heard::Command(control),
            None => Heard::Garbage,
        }
    }
}

/// Whether a command asks to re-home the gimbal: bit 0 of its flags.
pub open spec fn asks_rehome(control: Control) -> bool {
    control.flags % 2 == 1
}

/// Whether a command asks to re-home the gimbal.
pub fn rehome_requested(control: &Control) -> (b: bool)
    ensures
        b == (control.flags % 2 == 1),
        b == asks_rehome(*control),
{
    control.flags % 2 == 1
}

/// How a receive window ended.
#[derive(Copy, Clone, Debug, PartialEq, Eq, Structural)]
pub enum Window {
    /// Nothing was received in time.
    Silence,
    /// The radio reported an error.
    RxError,
    /// A frame of another pair, or a corrupt one.
    Foreign,
    /// A frame of this pair that is no `Control`.
    Garbage,
    /// A command whose reply could not be built.
    NoReply,
    /// A command whose reply was not sent: an error, or not done in time.
    ReplyStalled,
    /// A command, answered.
    Answered,
}

/// What a window says about the radio. A fault is one that a reset could fix: hearing nothing, an RX error, or the
/// reply stalling. A foreign frame says nothing: the radio works, the frame just was not for us.
pub open spec fn window_outcome(window: Window) -> Option<bool> {
    match window {
        Window::Silence | Window::RxError | Window::ReplyStalled => Some(false),
        Window::Foreign => None,
        Window::Garbage | Window::NoReply | Window::Answered => Some(true),
    }
}

/// What a received frame calls for.
#[derive(Copy, Clone, Debug, PartialEq, Eq, Structural)]
pub enum Turn {
    /// Nothing: the window ended like this.
    Listen(Window),
    /// Obey the command and transmit the reply.
    Reply(Control),
    /// Obey the command; no reply could be built, which ends the window as [`Window::NoReply`].
    Obey(Control),
}

/// The slave half of the link: the binding, the telemetry to reply with, and the health of the radio.
pub struct TruckLink {
    binding: Binding,
    telem: Telemetry,
    health: LinkHealth,
}

impl TruckLink {
    /// The health is well-formed.
    pub closed spec fn wf(&self) -> bool {
        self.health.wf()
    }

    /// The binding of the pair.
    pub closed spec fn spec_binding(&self) -> Binding {
        self.binding
    }

    /// The telemetry that the next reply carries.
    pub closed spec fn spec_telemetry(&self) -> Telemetry {
        self.telem
    }

    /// The health of the radio.
    pub closed spec fn spec_health(&self) -> lora_link::Health {
        self.health.health()
    }

    /// A link with nothing heard and no telemetry yet.
    pub fn new(binding: Binding) -> (link: Self)
        ensures
            link.wf(),
            link.spec_binding() == binding,
            link.spec_telemetry() == (Telemetry {
                speed_cm_s: 0,
                sats: 0,
                fix_quality: 0,
                dist_m: 0,
                bearing_deg: 0,
                nav_valid: 0,
            }),
            link.spec_health() == (lora_link::Health {
                reinit_after: REINIT_AFTER_MISSES,
                backoff_after: REINIT_BACKOFF_MISSES,
                misses: 0,
                state: LinkState::Tentative,
            }),
            link.spec_health().reinit_after == 5,
            link.spec_health().backoff_after == 25,
    {
        TruckLink {
            binding,
            telem: Telemetry::default(),
            health: LinkHealth::new(REINIT_AFTER_MISSES, REINIT_BACKOFF_MISSES),
        }
    }

    /// What a received frame is: only a frame that passes the binding is decoded at all.
    pub fn hear(&self, frame: &[u8]) -> (what: Heard)
        ensures
            what == heard(self.spec_binding().link_id@, self.spec_binding().crc_init, frame@),
    {
        match deframe(&self.binding, frame) {
            Some(payload) => match read_control(payload) {
                Some(control) => Heard::Command(control),
                None => Heard::Garbage,
            },
            None => Heard::Foreign,
        }
    }

    /// Builds the turnaround reply in `out`, refreshed from the latest telemetry if there is any. `Err` exactly where
    /// `out` cannot hold it; [`TELEMETRY_MAX_LEN`] plus the frame overhead always can.
    pub fn reply(&mut self, latest: Option<Telemetry>, out: &mut ByteBuf) -> (done: Result<(), ()>)
        requires
            old(self).wf(),
        ensures
            final(self).wf(),
            final(self).spec_binding() == old(self).spec_binding(),
            final(self).spec_health() == old(self).spec_health(),
            final(self).spec_telemetry() == (match latest {
                Some(telem) => telem,
                None => old(self).spec_telemetry(),
            }),
            final(out).spec_capacity() == old(out).spec_capacity(),
            done is Ok <==> final(self).spec_telemetry().wire().len() + link_id::FRAME_OVERHEAD
                <= old(out).spec_capacity(),
            done is Ok ==> final(out)@ == link_id::framed(
                old(self).spec_binding().link_id@,
                old(self).spec_binding().crc_init,
                final(self).spec_telemetry().wire(),
            ),
            done is Err ==> final(out)@ == link_id::partial_frame(
                old(self).spec_binding().link_id@,
                final(self).spec_telemetry().wire(),
                old(out).spec_capacity(),
            ),
            old(out).spec_capacity() >= TELEMETRY_MAX_LEN + link_id::FRAME_OVERHEAD ==> done is Ok,
    {
        if let Some(telem) = latest {
            self.telem = telem;
        }
        proof {
            proto::law_telemetry_round_trips(self.telem);
        }
        let mut payload = ByteBuf::new::<TELEMETRY_MAX_LEN>();
        if self.telem.encode(&mut payload).is_err() {
            return Err(());
        }
        link_id::frame(&self.binding, payload.as_slice(), out)
    }

    /// Takes in a received frame and the latest telemetry, if there is any. Only a command of this pair is answered: its
    /// reply is then in `out`. Anything else ends the window and leaves `out` alone, so that the truck never transmits
    /// unless a command has just freed the air.
    pub fn on_frame(&mut self, frame: &[u8], latest: Option<Telemetry>, out: &mut ByteBuf) -> (turn: Turn)
        requires
            old(self).wf(),
        ensures
            final(self).wf(),
            final(self).spec_binding() == old(self).spec_binding(),
            final(self).spec_health() == old(self).spec_health(),
            final(self).spec_telemetry() == (match latest {
                Some(telem) => telem,
                None => old(self).spec_telemetry(),
            }),
            final(out).spec_capacity() == old(out).spec_capacity(),
            ({
                let binding = old(self).spec_binding();
                let wire = final(self).spec_telemetry().wire();
                match heard(binding.link_id@, binding.crc_init, frame@) {
                    Heard::Foreign => turn == Turn::Listen(Window::Foreign) && final(out)@ == old(out)@,
                    Heard::Garbage => turn == Turn::Listen(Window::Garbage) && final(out)@ == old(out)@,
                    Heard::Command(control) => if wire.len() + link_id::FRAME_OVERHEAD <= old(out).spec_capacity() {
                        turn == Turn::Reply(control) && final(out)@ == link_id::framed(
                            binding.link_id@,
                            binding.crc_init,
                            wire,
                        )
                    } else {
                        turn == Turn::Obey(control) && final(out)@ == link_id::partial_frame(
                            binding.link_id@,
                            wire,
                            old(out).spec_capacity(),
                        )
                    },
                }
            }),
    {
        if let Some(telem) = latest {
            self.telem = telem;
        }
        match self.hear(frame) {
            Heard::Foreign => Turn::Listen(Window::Foreign),
            Heard::Garbage => Turn::Listen(Window::Garbage),
            Heard::Command(control) => if self.reply(None, out).is_ok() {
                Turn::Reply(control)
            } else {
                Turn::Obey(control)
            },
        }
    }

    /// Takes in how a window ended and says whether to re-initialize the radio.
    pub fn service(&mut self, window: Window) -> (serviced: Serviced)
        requires
            old(self).wf(),
        ensures
            final(self).wf(),
            final(self).spec_binding() == old(self).spec_binding(),
            final(self).spec_telemetry() == old(self).spec_telemetry(),
            old(self).spec_health().next(window_outcome(window)) == (final(self).spec_health(), serviced),
    {
        let outcome = match window {
            Window::Silence | Window::RxError | Window::ReplyStalled => Some(false),
            Window::Foreign => None,
            Window::Garbage | Window::NoReply | Window::Answered => Some(true),
        };
        self.health.service(outcome)
    }

    /// How the link is doing.
    pub fn state(&self) -> (state: LinkState)
        ensures
            state == self.spec_health().state,
    {
        self.health.state()
    }
}

// ---------------------------------------------------------------------------------------------------------------
// Servos
// ---------------------------------------------------------------------------------------------------------------

/// A pulse width with a trim, held to the servo band. The sum is exact, so that no width or trim, however large, can
/// wrap past the clamp and slam a mechanical stop.
pub open spec fn trimmed(us: u32, trim: i32) -> int {
    let sum = us + trim;
    if sum < servo::MIN_PULSE_US {
        servo::MIN_PULSE_US as int
    } else if sum > servo::MAX_PULSE_US {
        servo::MAX_PULSE_US as int
    } else {
        sum
    }
}

/// A commanded width with the home trim applied, clamped into the servo band.
pub fn trimmed_pulse(us: u32, trim: i32) -> (pulse_us: u16)
    ensures
        pulse_us == trimmed(us, trim),
        1000 <= us + trim <= 2000 ==> pulse_us == us + trim,
        us + trim < 1000 ==> pulse_us == 1000,
        us + trim > 2000 ==> pulse_us == 2000,
        servo::MIN_PULSE_US <= pulse_us <= servo::MAX_PULSE_US,
{
    let sum: i64 = us as i64 + trim as i64;
    if sum < servo::MIN_PULSE_US as i64 {
        servo::MIN_PULSE_US
    } else if sum > servo::MAX_PULSE_US as i64 {
        servo::MAX_PULSE_US
    } else {
        sum as u16
    }
}

/// Where the gimbal is told to point.
#[derive(Copy, Clone, Debug, PartialEq, Eq, Structural)]
pub struct Pose {
    pub pan_us: u32,
    pub tilt_us: u32,
}

/// The mechanical center.
pub open spec fn center_pose() -> Pose {
    Pose { pan_us: servo::CENTER_PULSE_US as u32, tilt_us: servo::CENTER_PULSE_US as u32 }
}

/// What the servo loop keeps between ticks.
pub struct Gimbal {
    pub latest: Pose,
    pub last_control_ms: u64,
    pub dirty: bool,
}

impl Gimbal {
    /// What one tick makes of it. A fresh pose is taken; without one for [`CONTROL_TIMEOUT_MS`] an off-center gimbal is
    /// recentered. `dirty` then says that the tick writes.
    pub open spec fn ticked(self, now_ms: u64, fresh: Option<Pose>) -> Gimbal {
        match fresh {
            Some(pose) => Gimbal { latest: pose, last_control_ms: now_ms, dirty: true },
            None => if self.latest != center_pose() && now_ms - self.last_control_ms >= CONTROL_TIMEOUT_MS {
                Gimbal { latest: center_pose(), dirty: true, ..self }
            } else {
                self
            },
        }
    }

    /// The state with a new home: the pose is to be written again.
    pub open spec fn rehomed(self) -> Gimbal {
        Gimbal { dirty: true, ..self }
    }

    /// The state after a tick: whatever was to be written has been.
    pub open spec fn settled(self) -> Gimbal {
        Gimbal { dirty: false, ..self }
    }
}

/// The servo loop's state. It writes a pose only when something changed (a new command, the failsafe, or the first
/// tick), for a PWM holds its duty between writes.
pub struct ServoLoop {
    latest: Pose,
    last_control_ms: u64,
    dirty: bool,
    pan_trim: i32,
    tilt_trim: i32,
}

impl ServoLoop {
    /// What is kept between ticks.
    pub closed spec fn gimbal(&self) -> Gimbal {
        Gimbal { latest: self.latest, last_control_ms: self.last_control_ms, dirty: self.dirty }
    }

    /// The pan and tilt trims.
    pub closed spec fn trims(&self) -> (i32, i32) {
        (self.pan_trim, self.tilt_trim)
    }

    /// A loop that starts now, centered and due to write on its first tick.
    pub fn new(now_ms: u64, pan_trim: i32, tilt_trim: i32) -> (servos: Self)
        ensures
            servos.gimbal() == (Gimbal { latest: center_pose(), last_control_ms: now_ms, dirty: true }),
            servos.trims() == (pan_trim, tilt_trim),
    {
        let latest = Pose { pan_us: servo::CENTER_PULSE_US as u32, tilt_us: servo::CENTER_PULSE_US as u32 };
        ServoLoop { latest, last_control_ms: now_ms, dirty: true, pan_trim, tilt_trim }
    }

    /// Trims the gimbal to a new home. The pose stays what it was told, and the next tick writes it with the new trims.
    pub fn rehome(&mut self, pan_trim: i32, tilt_trim: i32)
        ensures
            final(self).gimbal() == old(self).gimbal().rehomed(),
            final(self).trims() == (pan_trim, tilt_trim),
    {
        self.pan_trim = pan_trim;
        self.tilt_trim = tilt_trim;
        self.dirty = true;
    }

    /// One tick at `now_ms`, with the freshest command if one came in since the last. Returns the pan and tilt pulses
    /// to write, if any are due.
    pub fn tick(&mut self, now_ms: u64, fresh: Option<Control>) -> (pulses: Option<(u16, u16)>)
        requires
            old(self).gimbal().last_control_ms <= now_ms,
        ensures
            final(self).trims() == old(self).trims(),
            ({
                let pose = match fresh {
                    Some(control) => Some(Pose { pan_us: control.pan_us, tilt_us: control.tilt_us }),
                    None => None,
                };
                let next = old(self).gimbal().ticked(now_ms, pose);
                &&& final(self).gimbal() == next.settled()
                &&& pulses == if next.dirty {
                    Some(
                        (
                            trimmed(next.latest.pan_us, old(self).trims().0) as u16,
                            trimmed(next.latest.tilt_us, old(self).trims().1) as u16,
                        ),
                    )
                } else {
                    None
                }
            }),
    {
        let center = Pose { pan_us: servo::CENTER_PULSE_US as u32, tilt_us: servo::CENTER_PULSE_US as u32 };
        if let Some(control) = fresh {
            self.latest = Pose { pan_us: control.pan_us, tilt_us: control.tilt_us };
            self.last_control_ms = now_ms;
            self.dirty = true;
        } else if self.latest != center && now_ms - self.last_control_ms >= CONTROL_TIMEOUT_MS {
            self.latest = center;
            self.dirty = true;
        }
        if !self.dirty {
            return None;
        }
        self.dirty = false;
        Some(
            (
                trimmed_pulse(self.latest.pan_us, self.pan_trim),
                trimmed_pulse(self.latest.tilt_us, self.tilt_trim),
            ),
        )
    }
}

// ---------------------------------------------------------------------------------------------------------------
// GPS
// ---------------------------------------------------------------------------------------------------------------

/// The telemetry of a fix: speed, satellites and fix quality as far as they are known, and the navigation from the
/// launch point where there is any.
pub fn telemetry_of(fix: &GpsFix, nav: Option<Nav>) -> (telemetry: Telemetry)
    ensures
        telemetry.speed_cm_s == fix.speed_cm_s,
        telemetry.sats == (match fix.satellites {
            Some(n) => n as u32,
            None => 0,
        }),
        telemetry.fix_quality == (match fix.fix {
            Some(quality) => quality.raw as u32,
            None => 0,
        }),
        telemetry.nav_valid == (if nav is Some {
            1u32
        } else {
            0
        }),
        telemetry.dist_m == (match nav {
            Some(n) => n.distance_m,
            None => 0,
        }),
        telemetry.bearing_deg == (match nav {
            Some(n) => n.bearing_deg as u32,
            None => 0,
        }),
{
    let sats: u32 = match fix.satellites {
        Some(n) => n as u32,
        None => 0,
    };
    let fix_quality: u32 = match fix.fix {
        Some(quality) => quality.raw as u32,
        None => 0,
    };
    let (dist_m, bearing_deg, nav_valid) = match nav {
        Some(n) => (n.distance_m, n.bearing_deg as u32, 1u32),
        None => (0u32, 0u32, 0u32),
    };
    Telemetry { speed_cm_s: fix.speed_cm_s, sats, fix_quality, dist_m, bearing_deg, nav_valid }
}

// ---------------------------------------------------------------------------------------------------------------
// Panel
// ---------------------------------------------------------------------------------------------------------------

/// RSSI shown before the first command.
pub const RSSI_FLOOR: i16 = -127;

/// Whether something last seen at `last_ms` is recent enough at `now_ms` for the link to read up; never seen is down.
pub open spec fn link_live(last_ms: Option<u64>, now_ms: u64) -> bool {
    last_ms matches Some(last) && now_ms - last < LINK_TIMEOUT_MS
}

/// What the truck's panel is made of: the latest telemetry, and the RSSI and time of the last command.
pub struct TruckPanel {
    last: Telemetry,
    last_rssi: i16,
    last_rx_ms: Option<u64>,
}

impl TruckPanel {
    /// The latest ground speed.
    pub closed spec fn speed_cm_s(&self) -> u32 {
        self.last.speed_cm_s
    }

    /// The RSSI of the last command.
    pub closed spec fn rssi(&self) -> i16 {
        self.last_rssi
    }

    /// When the last command came, if any has.
    pub closed spec fn last_rx(&self) -> Option<u64> {
        self.last_rx_ms
    }

    /// Standing still, with the link down.
    pub fn new() -> (panel: Self)
        ensures
            panel.speed_cm_s() == 0,
            panel.rssi() == RSSI_FLOOR,
            panel.rssi() == -127,
            panel.last_rx() is None,
    {
        TruckPanel { last: Telemetry::default(), last_rssi: RSSI_FLOOR, last_rx_ms: None }
    }

    /// One refresh at `now_ms`, with what came in since the last: telemetry, and the RSSI of a command, whose arrival
    /// is also the link's heartbeat.
    pub fn tick(&mut self, now_ms: u64, telem: Option<Telemetry>, rssi: Option<i16>) -> (status: TruckStatus)
        requires
            old(self).last_rx() matches Some(last) ==> last <= now_ms,
        ensures
            final(self).speed_cm_s() == (match telem {
                Some(t) => t.speed_cm_s,
                None => old(self).speed_cm_s(),
            }),
            final(self).rssi() == (match rssi {
                Some(r) => r,
                None => old(self).rssi(),
            }),
            final(self).last_rx() == (if rssi is Some {
                Some(now_ms)
            } else {
                old(self).last_rx()
            }),
            status.mph == display::mph_of(final(self).speed_cm_s() as int),
            status.kmh == display::kmh_of(final(self).speed_cm_s() as int),
            status.rssi == final(self).rssi(),
            status.linked == link_live(final(self).last_rx(), now_ms),
            status.bars == display::bars_of(final(self).rssi(), status.linked),
    {
        if let Some(t) = telem {
            self.last = t;
        }
        if let Some(r) = rssi {
            self.last_rssi = r;
            self.last_rx_ms = Some(now_ms);
        }
        let linked = match self.last_rx_ms {
            Some(last) => now_ms - last < LINK_TIMEOUT_MS,
            None => false,
        };
        TruckStatus {
            mph: cm_s_to_mph(self.last.speed_cm_s),
            kmh: cm_s_to_kmh(self.last.speed_cm_s),
            bars: rssi_to_bars(self.last_rssi, linked),
            rssi: self.last_rssi,
            linked,
        }
    }
}

// ---------------------------------------------------------------------------------------------------------------
// Laws
// ---------------------------------------------------------------------------------------------------------------

/// A command framed by a goggle of the same pair arrives as it was sent.
pub proof fn law_command_arrives(link_id: Seq<u8>, crc_init: u16, control: Control)
    requires
        link_id.len() == 2,
    ensures
        heard(link_id, crc_init, link_id::framed(link_id, crc_init, control.wire())) == Heard::Command(control),
{
    link_id::law_frames_round_trip(link_id, crc_init, control.wire());
    proto::law_control_round_trips(control);
}

/// A command framed for another pair is never obeyed, nor held against the radio.
pub proof fn law_foreign_command_is_ignored(
    link_id: Seq<u8>,
    crc_init: u16,
    other_id: Seq<u8>,
    other_init: u16,
    control: Control,
    health: lora_link::Health,
)
    requires
        link_id.len() == 2,
        other_id.len() == 2,
        link_id != other_id || crc_init != other_init,
    ensures
        heard(link_id, crc_init, link_id::framed(other_id, other_init, control.wire())) == Heard::Foreign,
        health.next(window_outcome(Window::Foreign)) == (health, Serviced::Idle),
{
    link_id::law_foreign_frames_are_dropped(other_id, other_init, link_id, crc_init, control.wire());
}

/// Without a command for [`CONTROL_TIMEOUT_MS`] the gimbal stands at center, whatever it was told before.
pub proof fn law_lost_signal_recenters(g: Gimbal, now_ms: u64)
    requires
        now_ms - g.last_control_ms >= CONTROL_TIMEOUT_MS,
    ensures
        g.ticked(now_ms, None).latest == center_pose(),
{
}

/// The failsafe fires once: after it, ticks without a command write nothing.
pub proof fn law_failsafe_fires_once(g: Gimbal, now_ms: u64, later_ms: u64)
    requires
        now_ms - g.last_control_ms >= CONTROL_TIMEOUT_MS,
    ensures
        !g.ticked(now_ms, None).settled().ticked(later_ms, None).dirty,
{
}

/// While commands keep coming in time the gimbal points where the last one said, and a tick that brings nothing new
/// writes nothing.
pub proof fn law_last_command_is_held(g: Gimbal, pose: Pose, now_ms: u64, later_ms: u64)
    requires
        later_ms - now_ms < CONTROL_TIMEOUT_MS,
    ensures
        g.ticked(now_ms, Some(pose)).dirty,
        g.ticked(now_ms, Some(pose)).settled().ticked(later_ms, None).latest == pose,
        !g.ticked(now_ms, Some(pose)).settled().ticked(later_ms, None).dirty,
{
}

/// A new home takes effect at once: the next tick writes, whether or not a command came, and otherwise leaves everything
/// as a tick without a new home would have.
pub proof fn law_rehome_is_written(g: Gimbal, now_ms: u64, fresh: Option<Pose>)
    ensures
        g.rehomed().ticked(now_ms, fresh).dirty,
        g.rehomed().ticked(now_ms, fresh).latest == g.ticked(now_ms, fresh).latest,
        g.rehomed().ticked(now_ms, fresh).settled() == g.ticked(now_ms, fresh).settled(),
{
}

/// The panel never shows the link up before the first command, shows it up right after one, and down again once none has
/// come for [`LINK_TIMEOUT_MS`].
pub proof fn law_link_follows_commands(last_ms: u64, now_ms: u64)
    ensures
        !link_live(None, now_ms),
        link_live(Some(last_ms), last_ms),
        now_ms - last_ms >= LINK_TIMEOUT_MS ==> !link_live(Some(last_ms), now_ms),
{
}

/// A width whose sum with the trim lies from 1000 to 2000 us is written as that sum; a smaller sum gives 1000, a larger one
/// 2000.
pub proof fn law_pulse_is_width_plus_trim(us: u32, trim: i32)
    ensures
        1000 <= us + trim <= 2000 ==> trimmed(us, trim) == us + trim,
        us + trim < 1000 ==> trimmed(us, trim) == 1000,
        us + trim > 2000 ==> trimmed(us, trim) == 2000,
{
}

/// A tick follows the command it brings; without one it holds the pose for a second after the last command, and from then
/// on stands at 1500 us on both axes. What it last heard is the time of the last command.
pub proof fn law_gimbal_follows_and_recenters(g: Gimbal, now_ms: u64, pose: Pose)
    ensures
        g.ticked(now_ms, Some(pose)).latest == pose,
        g.ticked(now_ms, Some(pose)).last_control_ms == now_ms,
        g.ticked(now_ms, Some(pose)).dirty,
        now_ms - g.last_control_ms < 1000 ==> g.ticked(now_ms, None) == g,
        now_ms - g.last_control_ms >= 1000 ==> g.ticked(now_ms, None).latest.pan_us == 1500 && g.ticked(
            now_ms,
            None,
        ).latest.tilt_us == 1500,
        g.ticked(now_ms, None).last_control_ms == g.last_control_ms,
        g.latest.pan_us == 1500 && g.latest.tilt_us == 1500 ==> g.ticked(now_ms, None) == g,
        now_ms - g.last_control_ms >= 1000 && !(g.latest.pan_us == 1500 && g.latest.tilt_us == 1500) ==> g.ticked(
            now_ms,
            None,
        ).dirty,
        g.settled().latest == g.latest && g.settled().last_control_ms == g.last_control_ms && !g.settled().dirty,
        g.rehomed().latest == g.latest && g.rehomed().last_control_ms == g.last_control_ms && g.rehomed().dirty,
{
}

/// A frame of this pair is a command exactly where its payload decodes, and that command is what it decodes to; otherwise
/// it is garbage. A frame that is too short, or damaged in one byte, is foreign.
pub proof fn law_own_frames_are_commands_or_garbage(
    link_id: Seq<u8>,
    crc_init: u16,
    payload: Seq<u8>,
    at: int,
    byte: u8,
)
    requires
        link_id.len() == 2,
        0 <= at < payload.len() + 4,
        byte != link_id::framed(link_id, crc_init, payload)[at],
    ensures
        ({
            let frame = link_id::framed(link_id, crc_init, payload);
            &&& proto::control_in(payload) matches Some(control) ==> heard(link_id, crc_init, frame) == Heard::Command(control)
            &&& proto::control_in(payload) is None ==> heard(link_id, crc_init, frame) == Heard::Garbage
            &&& heard(link_id, crc_init, frame.update(at, byte)) == Heard::Foreign
            &&& at < 4 ==> heard(link_id, crc_init, frame.take(at)) == Heard::Foreign
        }),
{
    link_id::law_frames_round_trip(link_id, crc_init, payload);
    link_id::law_damaged_frames_are_dropped(link_id, crc_init, payload, at, byte);
}

/// Hearing nothing, a radio error and a stalled reply are faults; a foreign frame is neither; anything that was heard from
/// the own goggle shows that the radio works.
pub proof fn law_windows_judge_the_radio(h: lora_link::Health, window: Window)
    ensures
        ({
            let after = h.next(window_outcome(window)).0;
            &&& window is Silence || window is RxError || window is ReplyStalled ==> after.state != LinkState::Connected
            &&& window is Foreign ==> after == h
            &&& window is Garbage || window is NoReply || window is Answered ==> after.state == LinkState::Connected
                && after.misses == 0
        }),
{
}

/// The panel shows the link up exactly for half a second after a command.
pub proof fn law_link_is_up_for_half_a_second(last_ms: u64, now_ms: u64)
    ensures
        link_live(Some(last_ms), now_ms) <==> now_ms - last_ms < 500,
        !link_live(None, now_ms),
{
}

/// The request to re-home is bit 0 of the flags, whatever the other bits say.
pub proof fn law_rehome_is_bit_zero(control: Control)
    ensures
        asks_rehome(control) <==> control.flags & 1 == 1,
{
    let flags = control.flags;
    assert(flags % 2 == 1 <==> flags & 1 == 1) by (bit_vector);
}

/// The two nodes fit each other: they send with the same power and give the link up after the same time, the truck listens
/// for five periods of the goggle before it counts a fault, any frame fits the radio, and a gimbal at the greatest home
/// angle can still be driven to either side.
pub proof fn law_nodes_fit_each_other()
    ensures
        TX_POWER_DBM == crate::goggle::TX_POWER_DBM,
        TX_TIMEOUT_MS == crate::goggle::TX_TIMEOUT_MS,
        LINK_TIMEOUT_MS == crate::goggle::LINK_TIMEOUT_MS,
        OLED_PERIOD_MS == crate::goggle::OLED_PERIOD_MS,
        RX_TIMEOUT_MS == 5 * crate::goggle::TX_PERIOD_MS,
        CONTROL_TIMEOUT_MS == 25 * crate::goggle::TX_PERIOD_MS,
        TX_TIMEOUT_MS < crate::goggle::TX_PERIOD_MS,
        crate::goggle::DEBOUNCE_MS < crate::goggle::LONG_PRESS_MS,
        TELEMETRY_MAX_LEN + link_id::FRAME_OVERHEAD <= lora_link::MAX_PAYLOAD,
        crate::proto::CONTROL_MAX_LEN + link_id::FRAME_OVERHEAD <= lora_link::MAX_PAYLOAD,
        MAX_HOME_DEG * US_PER_DEGREE < servo::MAX_PULSE_US - servo::CENTER_PULSE_US,
        crate::lora_ping::ECHO_TIMEOUT_MS < crate::lora_ping::PING_PERIOD_MS,
{
}

} // verus!
