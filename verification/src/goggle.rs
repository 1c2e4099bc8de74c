//! Goggle node: decode the head-tracking stream, send pan/tilt over LoRa at a fixed rate, show what the truck
//! replies. The master half of the half-duplex link.
//!
//! The node's tasks wait on edges, the radio, the clock and the button; what they decide in between is here. Times
//! are milliseconds of one monotonic clock.

use vstd::prelude::*;

use crate::buffer::ByteBuf;
use crate::display::Status;
use crate::link_id;
use crate::link_id::{deframe, Binding};
use crate::ppm_decoder::{Frame, MAX_CHANNELS};
use crate::proto;
use crate::proto::{read_telemetry, Control, Telemetry, CONTROL_MAX_LEN, FLAG_REHOME};
use crate::truck;

verus! {

/// Channel of the head's pan, counted from zero (menu channel 5).
pub const PAN_CHANNEL: usize = 4;

/// Channel of the head's tilt, counted from zero (menu channel 6).
pub const TILT_CHANNEL: usize = 5;

/// Pulse width sent until a real frame arrives, so that the truck centers rather than slamming a stop.
pub const CENTER_US: u32 = 1_500;

/// One command goes out per this period.
pub const TX_PERIOD_MS: u64 = 40;

/// Bound on one transmission.
pub const TX_TIMEOUT_MS: u64 = 30;

/// How long to listen for the truck's reply.
pub const REPLY_TIMEOUT_MS: u64 = 30;

/// Transmit power.
pub const TX_POWER_DBM: i32 = 10;

/// Panel refresh period.
pub const OLED_PERIOD_MS: u64 = 250;

/// The link reads down without a reply for this long.
pub const LINK_TIMEOUT_MS: u64 = 500;

/// How long a press has to hold before it counts.
pub const DEBOUNCE_MS: u64 = 50;

/// How long a press has to hold on, once it counts, to be a long one.
pub const LONG_PRESS_MS: u64 = 1_000;

// ---------------------------------------------------------------------------------------------------------------
// Head tracking
// ---------------------------------------------------------------------------------------------------------------

/// The width of a channel of a frame, or center where the frame does not carry it.
pub open spec fn axis_us(frame: Frame, channel: int) -> u32 {
    if channel < frame.count {
        frame.channels@[channel] as u32
    } else {
        CENTER_US
    }
}

/// The command of a decoded frame. An axis that the frame does not carry is centered, so that a short frame never
/// sends a stale width.
pub fn control_of(frame: &Frame) -> (control: Control)
    requires
        frame.count <= MAX_CHANNELS,
    ensures
        control == (Control {
            pan_us: axis_us(*frame, PAN_CHANNEL as int),
            tilt_us: axis_us(*frame, TILT_CHANNEL as int),
            flags: 0,
        }),
        frame.count > 4 ==> control.pan_us == frame.channels@[4],
        frame.count <= 4 ==> control.pan_us == 1500,
        frame.count > 5 ==> control.tilt_us == frame.channels@[5],
        frame.count <= 5 ==> control.tilt_us == 1500,
{
    let pan_us: u32 = match frame.channel(PAN_CHANNEL) {
        Some(us) => us as u32,
        None => CENTER_US,
    };
    let tilt_us: u32 = match frame.channel(TILT_CHANNEL) {
        Some(us) => us as u32,
        None => CENTER_US,
    };
    Control { pan_us, tilt_us, flags: 0 }
}

/// A command that also asks to re-home the gimbal, where that was requested.
pub open spec fn rehoming(control: Control, requested: bool) -> Control {
    Control {
        flags: if requested {
            FLAG_REHOME
        } else {
            control.flags
        },
        ..control
    }
}

/// Puts a requested re-home into the command that goes out.
pub fn with_rehome(control: Control, requested: bool) -> (c: Control)
    ensures
        c.pan_us == control.pan_us,
        c.tilt_us == control.tilt_us,
        c.flags == (if requested {
            FLAG_REHOME
        } else {
            control.flags
        }),
        c == rehoming(control, requested),
{
    if requested {
        Control { pan_us: control.pan_us, tilt_us: control.tilt_us, flags: FLAG_REHOME }
    } else {
        control
    }
}

// ---------------------------------------------------------------------------------------------------------------
// Radio
// ---------------------------------------------------------------------------------------------------------------

/// What a received frame turned out to be.
#[derive(Copy, Clone, Debug, PartialEq, Eq, Structural)]
pub enum Reply {
    /// Of another pair, or corrupt.
    Foreign,
    /// Of this pair, but no `Telemetry`.
    Garbage,
    /// The truck's telemetry.
    Telemetry(Telemetry),
}

/// What a received frame is to a node with this binding.
pub open spec fn reply_in(link_id: Seq<u8>, crc_init: u16, frame: Seq<u8>) -> Reply {
    if !link_id::is_frame(link_id, crc_init, frame) {
        Reply::Foreign
    } else {
        match proto::telemetry_in(frame.subrange(2, frame.len() - 2)) {
            Some(telemetry) => Reply::Telemetry(telemetry),
            None => Reply::Garbage,
        }
    }
}

/// The master half of the link: the binding, the command that goes out each period, and whether the next one is to ask
/// for a re-home.
pub struct GoggleLink {
    binding: Binding,
    latest: Control,
    rehome: bool,
}

impl GoggleLink {
    /// The binding of the pair.
    pub closed spec fn spec_binding(&self) -> Binding {
        self.binding
    }

    /// The command that goes out each period.
    pub closed spec fn spec_latest(&self) -> Control {
        self.latest
    }

    /// Whether a re-home waits to be asked for.
    pub closed spec fn spec_rehome(&self) -> bool {
        self.rehome
    }

    /// A link that sends center until the first frame.
    pub fn new(binding: Binding) -> (link: Self)
        ensures
            link.spec_binding() == binding,
            link.spec_latest() == (Control { pan_us: CENTER_US, tilt_us: CENTER_US, flags: 0 }),
            link.spec_latest().pan_us == 1500 && link.spec_latest().tilt_us == 1500,
            !link.spec_rehome(),
    {
        GoggleLink {
            binding,
            latest: Control { pan_us: CENTER_US, tilt_us: CENTER_US, flags: 0 },
            rehome: false,
        }
    }

    /// Has the next command ask for a re-home.
    pub fn request_rehome(&mut self)
        ensures
            final(self).spec_binding() == old(self).spec_binding(),
            final(self).spec_latest() == old(self).spec_latest(),
            final(self).spec_rehome(),
    {
        self.rehome = true;
    }

    /// One period: takes the fresher command if one is waiting, else resends the last, so that a momentary gap in the
    /// stream still keeps the link alive. A requested re-home rides on the one command built first; resending does not
    /// repeat it. Builds the frame to send in `out`; `Err` exactly where `out` cannot hold it, which [`CONTROL_MAX_LEN`]
    /// bytes plus the frame overhead always can.
    pub fn tick(&mut self, fresh: Option<Control>, out: &mut ByteBuf) -> (done: Result<(), ()>)
        ensures
            final(self).spec_binding() == old(self).spec_binding(),
            final(self).spec_latest() == (match fresh {
                Some(control) => control,
                None => old(self).spec_latest(),
            }),
            final(self).spec_rehome() == (old(self).spec_rehome() && done is Err),
            final(out).spec_capacity() == old(out).spec_capacity(),
            ({
                let wire = rehoming(final(self).spec_latest(), old(self).spec_rehome()).wire();
                &&& done is Ok <==> wire.len() + link_id::FRAME_OVERHEAD <= old(out).spec_capacity()
                &&& done is Ok ==> final(out)@ == link_id::framed(
                    old(self).spec_binding().link_id@,
                    old(self).spec_binding().crc_init,
                    wire,
                )
                &&& done is Err ==> final(out)@ == link_id::partial_frame(
                    old(self).spec_binding().link_id@,
                    wire,
                    old(out).spec_capacity(),
                )
            }),
            old(out).spec_capacity() >= CONTROL_MAX_LEN + link_id::FRAME_OVERHEAD ==> done is Ok,
    {
        if let Some(control) = fresh {
            self.latest = control;
        }
        let control = with_rehome(self.latest, self.rehome);
        proof {
            proto::law_control_round_trips(control);
        }
        let mut payload = ByteBuf::new::<CONTROL_MAX_LEN>();
        if control.encode(&mut payload).is_err() {
            return Err(());
        }
        let done = link_id::frame(&self.binding, payload.as_slice(), out);
        if done.is_ok() {
            self.rehome = false;
        }
        done
    }

    /// What a received frame is.
    pub fn hear(&self, frame: &[u8]) -> (reply: Reply)
        ensures
            reply == reply_in(self.spec_binding().link_id@, self.spec_binding().crc_init, frame@),
    {
        match deframe(&self.binding, frame) {
            Some(payload) => match read_telemetry(payload) {
                Some(telemetry) => Reply::Telemetry(telemetry),
                None => Reply::Garbage,
            },
            None => Reply::Foreign,
        }
    }
}

// ---------------------------------------------------------------------------------------------------------------
// Panel
// ---------------------------------------------------------------------------------------------------------------

/// Whether a reply last seen at `last_ms` is recent enough at `now_ms` for the link to read up; never seen is down.
pub open spec fn link_live(last_ms: Option<u64>, now_ms: u64) -> bool {
    last_ms matches Some(last) && now_ms - last < LINK_TIMEOUT_MS
}

/// What the goggle's panel is made of: the latest telemetry and when it came, and when the lap started.
pub struct GogglePanel {
    last: Telemetry,
    last_rx_ms: Option<u64>,
    lap_origin_ms: u64,
}

impl GogglePanel {
    /// The latest telemetry.
    pub closed spec fn telemetry(&self) -> Telemetry {
        self.last
    }

    /// When it came, if any has.
    pub closed spec fn last_rx(&self) -> Option<u64> {
        self.last_rx_ms
    }

    /// When the lap started.
    pub closed spec fn lap_origin(&self) -> u64 {
        self.lap_origin_ms
    }

    /// No reply yet, and a lap that starts now.
    pub fn new(now_ms: u64) -> (panel: Self)
        ensures
            panel.telemetry() == (Telemetry {
                speed_cm_s: 0,
                sats: 0,
                fix_quality: 0,
                dist_m: 0,
                bearing_deg: 0,
                nav_valid: 0,
            }),
            panel.last_rx() is None,
            panel.lap_origin() == now_ms,
    {
        GogglePanel { last: Telemetry::default(), last_rx_ms: None, lap_origin_ms: now_ms }
    }

    /// One refresh at `now_ms`, with what came in since the last: telemetry, and a press of the lap button. The link
    /// reads up only while a reply has been seen within [`LINK_TIMEOUT_MS`]; the lap line is whole seconds since the
    /// last reset.
    pub fn tick(&mut self, now_ms: u64, telem: Option<Telemetry>, lap_reset: bool) -> (status: Status)
        requires
            old(self).last_rx() matches Some(last) ==> last <= now_ms,
            old(self).lap_origin() <= now_ms,
        ensures
            final(self).telemetry() == (match telem {
                Some(t) => t,
                None => old(self).telemetry(),
            }),
            final(self).last_rx() == (if telem is Some {
                Some(now_ms)
            } else {
                old(self).last_rx()
            }),
            final(self).lap_origin() == (if lap_reset {
                now_ms
            } else {
                old(self).lap_origin()
            }),
            status == (Status {
                speed_cm_s: final(self).telemetry().speed_cm_s,
                link_up: link_live(final(self).last_rx(), now_ms),
                gps_fix: final(self).telemetry().fix_quality != 0,
                lap_secs: ((now_ms - final(self).lap_origin()) / 1000) as u32,
            }),
    {
        if let Some(t) = telem {
            self.last = t;
            self.last_rx_ms = Some(now_ms);
        }
        if lap_reset {
            self.lap_origin_ms = now_ms;
        }
        let link_up = match self.last_rx_ms {
            Some(last) => now_ms - last < LINK_TIMEOUT_MS,
            None => false,
        };
        let elapsed_ms: u64 = now_ms - self.lap_origin_ms;
        Status {
            speed_cm_s: self.last.speed_cm_s,
            link_up,
            gps_fix: self.last.fix_quality != 0,
            lap_secs: #[verifier::truncate] ((elapsed_ms / 1000) as u32),
        }
    }
}

// ---------------------------------------------------------------------------------------------------------------
// Button
// ---------------------------------------------------------------------------------------------------------------

/// What the button is waiting for. The line is active-low.
#[derive(Copy, Clone, Debug, PartialEq, Eq, Structural)]
pub enum Button {
    /// A falling edge.
    Released,
    /// The end of the debounce window.
    Settling,
    /// A rising edge, after a press that counted, or the end of the long-press window.
    Pressed,
    /// A rising edge, after a press that turned out long.
    Held,
}

/// What happened on the line.
#[derive(Copy, Clone, Debug, PartialEq, Eq, Structural)]
pub enum ButtonEvent {
    /// The line fell.
    Fell,
    /// The debounce window ended with the line low or not.
    Settled { low: bool },
    /// The long-press window ended with the line still low.
    HeldLong,
    /// The line rose.
    Rose,
}

/// What an event on the line amounts to.
#[derive(Copy, Clone, Debug, PartialEq, Eq, Structural)]
pub enum Press {
    /// Nothing.
    Nothing,
    /// A press that counts: reset the lap.
    LapReset,
    /// The press turned out long: request a re-home.
    Rehome,
}

/// Where an event takes the button, and what it amounts to.
pub open spec fn button_next(button: Button, event: ButtonEvent) -> (Button, Press) {
    match (button, event) {
        (Button::Released, ButtonEvent::Fell) => (Button::Settling, Press::Nothing),
        (Button::Settling, ButtonEvent::Settled { low }) => if low {
            (Button::Pressed, Press::LapReset)
        } else {
            (Button::Released, Press::Nothing)
        },
        (Button::Pressed, ButtonEvent::HeldLong) => (Button::Held, Press::Rehome),
        (Button::Pressed, ButtonEvent::Rose) => (Button::Released, Press::Nothing),
        (Button::Held, ButtonEvent::Rose) => (Button::Released, Press::Nothing),
        _ => (button, Press::Nothing),
    }
}

impl Button {
    /// Takes in an event and classifies it. A press counts, and resets the lap, once the line is still low after the
    /// debounce window; it requests a re-home once it is still held at the end of the long-press window. The next one
    /// comes only after it was released.
    pub fn on(&mut self, event: ButtonEvent) -> (press: Press)
        ensures
            (*final(self), press) == button_next(*old(self), event),
    {
        match (*self, event) {
            (Button::Released, ButtonEvent::Fell) => {
                *self = Button::Settling;
                Press::Nothing
            },
            (Button::Settling, ButtonEvent::Settled { low }) => if low {
                *self = Button::Pressed;
                Press::LapReset
            } else {
                *self = Button::Released;
                Press::Nothing
            },
            (Button::Pressed, ButtonEvent::HeldLong) => {
                *self = Button::Held;
                Press::Rehome
            },
            (Button::Pressed, ButtonEvent::Rose) => {
                *self = Button::Released;
                Press::Nothing
            },
            (Button::Held, ButtonEvent::Rose) => {
                *self = Button::Released;
                Press::Nothing
            },
            _ => Press::Nothing,
        }
    }
}

/// How many events of a run amount to `press`.
pub open spec fn count_of(button: Button, events: Seq<ButtonEvent>, press: Press) -> nat
    decreases events.len(),
{
    if events.len() == 0 {
        0
    } else {
        let (next, now) = button_next(button, events[0]);
        count_of(next, events.drop_first(), press) + if now == press {
            1nat
        } else {
            0
        }
    }
}

/// How many presses count, and reset the lap, in a run of events.
pub open spec fn presses(button: Button, events: Seq<ButtonEvent>) -> nat {
    count_of(button, events, Press::LapReset)
}

/// How many re-homes a run of events requests.
pub open spec fn rehomes(button: Button, events: Seq<ButtonEvent>) -> nat {
    count_of(button, events, Press::Rehome)
}

/// How many times the line rose in a run of events.
pub open spec fn releases(events: Seq<ButtonEvent>) -> nat
    decreases events.len(),
{
    if events.len() == 0 {
        0
    } else {
        releases(events.drop_first()) + if events[0] == ButtonEvent::Rose {
            1nat
        } else {
            0
        }
    }
}

// ---------------------------------------------------------------------------------------------------------------
// Laws
// ---------------------------------------------------------------------------------------------------------------

/// Telemetry framed by a truck of the same pair arrives as it was sent, an all-default one included.
pub proof fn law_telemetry_arrives(link_id: Seq<u8>, crc_init: u16, telemetry: Telemetry)
    requires
        link_id.len() == 2,
    ensures
        reply_in(link_id, crc_init, link_id::framed(link_id, crc_init, telemetry.wire())) == Reply::Telemetry(telemetry),
{
    link_id::law_frames_round_trip(link_id, crc_init, telemetry.wire());
    proto::law_telemetry_round_trips(telemetry);
}

/// Telemetry framed for another pair is never shown.
pub proof fn law_foreign_telemetry_is_ignored(
    link_id: Seq<u8>,
    crc_init: u16,
    other_id: Seq<u8>,
    other_init: u16,
    telemetry: Telemetry,
)
    requires
        link_id.len() == 2,
        other_id.len() == 2,
        link_id != other_id || crc_init != other_init,
    ensures
        reply_in(link_id, crc_init, link_id::framed(other_id, other_init, telemetry.wire())) == Reply::Foreign,
{
    link_id::law_foreign_frames_are_dropped(other_id, other_init, link_id, crc_init, telemetry.wire());
}

/// The panel never shows the link up before the first reply, shows it up right after one, and down again once none has
/// come for [`LINK_TIMEOUT_MS`]: it follows the truck and is no one-way latch.
pub proof fn law_link_follows_replies(last_ms: u64, now_ms: u64)
    ensures
        !link_live(None, now_ms),
        link_live(Some(last_ms), last_ms),
        now_ms - last_ms >= LINK_TIMEOUT_MS ==> !link_live(Some(last_ms), now_ms),
{
}

/// One physical press is at most one reset: however the line bounces, no more presses count than releases came in
/// between, plus one.
pub proof fn law_one_press_is_one_reset(button: Button, events: Seq<ButtonEvent>)
    ensures
        presses(button, events) <= releases(events) + if button == Button::Pressed || button == Button::Held {
            0nat
        } else {
            1
        },
    decreases events.len(),
{
    if events.len() > 0 {
        law_one_press_is_one_reset(button_next(button, events[0]).0, events.drop_first());
    }
}

/// One physical press is at most one request: however long it is held, no more re-homes are requested than releases came
/// in between, plus one; and none is requested but by a press that counts.
pub proof fn law_one_long_press_is_one_request(button: Button, events: Seq<ButtonEvent>)
    ensures
        rehomes(button, events) <= releases(events) + if button == Button::Held {
            0nat
        } else {
            1
        },
        rehomes(button, events) <= presses(button, events) + if button == Button::Pressed {
            1nat
        } else {
            0
        },
    decreases events.len(),
{
    if events.len() > 0 {
        law_one_long_press_is_one_request(button_next(button, events[0]).0, events.drop_first());
    }
}

/// A glitch that is gone when the debounce window ends counts for nothing; a line still low then counts once, and
/// requests nothing yet.
pub proof fn law_glitches_do_not_count(low: bool)
    ensures
        presses(Button::Released, seq![ButtonEvent::Fell, ButtonEvent::Settled { low }]) == (if low {
            1nat
        } else {
            0
        }),
        rehomes(Button::Released, seq![ButtonEvent::Fell, ButtonEvent::Settled { low }]) == 0,
{
    let events = seq![ButtonEvent::Fell, ButtonEvent::Settled { low }];
    assert(events.drop_first() =~= seq![ButtonEvent::Settled { low }]);
    assert(events.drop_first().drop_first() =~= Seq::empty());
    reveal_with_fuel(count_of, 4);
}

proof fn lemma_no_release(events: Seq<ButtonEvent>)
    requires
        forall|i: int| 0 <= i < events.len() ==> #[trigger] events[i] != ButtonEvent::Rose,
    ensures
        releases(events) == 0,
    decreases events.len(),
{
    if events.len() > 0 {
        let rest = events.drop_first();
        assert forall|i: int| 0 <= i < rest.len() implies #[trigger] rest[i] != ButtonEvent::Rose by {
            assert(events[i + 1] != ButtonEvent::Rose);
        }
        lemma_no_release(rest);
        assert(events[0] != ButtonEvent::Rose);
    }
}

/// A press is classified by how long it is held: whatever else happens before it is released, it requests a re-home
/// exactly once where it outlasts the long-press window and never where it does not, and it resets the lap no second time.
pub proof fn law_held_press_is_classified(events: Seq<ButtonEvent>)
    requires
        forall|i: int| 0 <= i < events.len() ==> #[trigger] events[i] != ButtonEvent::Rose,
    ensures
        presses(Button::Pressed, events) == 0,
        rehomes(Button::Pressed, events) == (if events.contains(ButtonEvent::HeldLong) {
            1nat
        } else {
            0
        }),
    decreases events.len(),
{
    lemma_no_release(events);
    law_one_press_is_one_reset(Button::Pressed, events);
    if events.len() > 0 {
        let rest = events.drop_first();
        assert forall|i: int| 0 <= i < rest.len() implies #[trigger] rest[i] != ButtonEvent::Rose by {
            assert(events[i + 1] != ButtonEvent::Rose);
        }
        assert(events[0] != ButtonEvent::Rose);
        if events[0] == ButtonEvent::HeldLong {
            lemma_no_release(rest);
            law_one_long_press_is_one_request(Button::Held, rest);
        } else {
            law_held_press_is_classified(rest);
            if events.contains(ButtonEvent::HeldLong) {
                let at = events.index_of(ButtonEvent::HeldLong);
                assert(rest[at - 1] == ButtonEvent::HeldLong);
            }
            if rest.contains(ButtonEvent::HeldLong) {
                let at = rest.index_of(ButtonEvent::HeldLong);
                assert(events[at + 1] == ButtonEvent::HeldLong);
            }
        }
    }
}

/// A request arrives at a truck of the same pair as one to re-home, with the head's pose unchanged; a command without one
/// asks for nothing that it did not ask for before.
pub proof fn law_rehome_request_arrives(link_id: Seq<u8>, crc_init: u16, control: Control, requested: bool)
    requires
        link_id.len() == 2,
    ensures
        ({
            let sent = rehoming(control, requested);
            &&& truck::heard(link_id, crc_init, link_id::framed(link_id, crc_init, sent.wire())) == truck::Heard::Command(
                sent,
            )
            &&& requested ==> truck::asks_rehome(sent)
            &&& sent.pan_us == control.pan_us
            &&& sent.tilt_us == control.tilt_us
            &&& sent.flags == if requested {
                FLAG_REHOME
            } else {
                control.flags
            }
        }),
{
    truck::law_command_arrives(link_id, crc_init, rehoming(control, requested));
}

/// An axis is the width of its channel where the frame carries it, and 1500 us where it does not.
pub proof fn law_axes_are_channels_or_center(frame: Frame, channel: int)
    requires
        0 <= channel < 16,
        frame.count <= 16,
    ensures
        channel < frame.count ==> axis_us(frame, channel) == frame.channels@[channel],
        channel >= frame.count ==> axis_us(frame, channel) == 1500,
{
}

/// The panel shows the link up exactly for half a second after a reply.
pub proof fn law_link_is_up_for_half_a_second(last_ms: u64, now_ms: u64)
    ensures
        link_live(Some(last_ms), now_ms) <==> now_ms - last_ms < 500,
        !link_live(None, now_ms),
{
}

/// A frame of this pair is a reply exactly where its payload decodes, and that reply is what it decodes to; otherwise it
/// is garbage. A frame damaged in one byte is foreign.
pub proof fn law_own_frames_are_replies_or_garbage(link_id: Seq<u8>, crc_init: u16, payload: Seq<u8>, at: int, byte: u8)
    requires
        link_id.len() == 2,
        0 <= at < payload.len() + 4,
        byte != link_id::framed(link_id, crc_init, payload)[at],
    ensures
        ({
            let frame = link_id::framed(link_id, crc_init, payload);
            &&& proto::telemetry_in(payload) matches Some(telemetry) ==> reply_in(link_id, crc_init, frame)
                == Reply::Telemetry(telemetry)
            &&& proto::telemetry_in(payload) is None ==> reply_in(link_id, crc_init, frame) == Reply::Garbage
            &&& reply_in(link_id, crc_init, frame.update(at, byte)) == Reply::Foreign
        }),
{
    link_id::law_frames_round_trip(link_id, crc_init, payload);
    link_id::law_damaged_frames_are_dropped(link_id, crc_init, payload, at, byte);
}

/// `n` presses in a row, each held past the debounce window and released before the long-press window ends, or after it.
pub open spec fn presses_in_a_row(n: nat, long: bool) -> Seq<ButtonEvent>
    decreases n,
{
    if n == 0 {
        Seq::empty()
    } else {
        (if long {
            seq![ButtonEvent::Fell, ButtonEvent::Settled { low: true }, ButtonEvent::HeldLong, ButtonEvent::Rose]
        } else {
            seq![ButtonEvent::Fell, ButtonEvent::Settled { low: true }, ButtonEvent::Rose]
        }) + presses_in_a_row((n - 1) as nat, long)
    }
}

/// Every press counts: `n` of them reset the lap `n` times, and request a re-home `n` times where they are long and never
/// where they are short.
pub proof fn law_every_press_counts(n: nat, long: bool)
    ensures
        presses(Button::Released, presses_in_a_row(n, long)) == n,
        rehomes(Button::Released, presses_in_a_row(n, long)) == (if long {
            n
        } else {
            0
        }),
    decreases n,
{
    if n > 0 {
        let rest = presses_in_a_row((n - 1) as nat, long);
        law_every_press_counts((n - 1) as nat, long);
        let events = presses_in_a_row(n, long);
        let one = events.drop_first();
        let two = one.drop_first();
        let three = two.drop_first();
        assert(events[0] == ButtonEvent::Fell);
        assert(one[0] == ButtonEvent::Settled { low: true });
        if long {
            assert(two[0] == ButtonEvent::HeldLong);
            assert(three[0] == ButtonEvent::Rose);
            assert(three.drop_first() =~= rest);
        } else {
            assert(two[0] == ButtonEvent::Rose);
            assert(three =~= rest);
        }
        reveal_with_fuel(count_of, 5);
    }
}

/// A bounce changes nothing: while a press settles, and while it is held, the line falling again does not count. Only the
/// end of the debounce window ends the settling, and a glitch leaves the button released, as it was.
pub proof fn law_bounces_change_nothing(button: Button, low: bool)
    ensures
        button == Button::Settling ==> button_next(button, ButtonEvent::Rose).0 == button,
        button == Button::Released ==> button_next(button, ButtonEvent::Rose).0 == button,
        button != Button::Settling ==> button_next(button, ButtonEvent::Settled { low }) == (button, Press::Nothing),
        !low ==> button_next(button_next(Button::Released, ButtonEvent::Fell).0, ButtonEvent::Settled { low }) == (
            Button::Released,
            Press::Nothing,
        ),
        button != Button::Released ==> button_next(button, ButtonEvent::Fell) == (button, Press::Nothing),
        button_next(Button::Released, ButtonEvent::Fell).1 == Press::Nothing,
        button_next(button, ButtonEvent::Rose).1 == Press::Nothing,
        button == Button::Pressed || button == Button::Held ==> button_next(button, ButtonEvent::Rose).0 == Button::Released,
        button != Button::Pressed ==> button_next(button, ButtonEvent::HeldLong) == (button, Press::Nothing),
{
}

} // verus!
