use bounce_fpv::buffer::ByteBuf;
use bounce_fpv::display::{Status, TruckStatus};
use bounce_fpv::geo::{delta_e7, nav_from_rounded, position, CoordE7, LaunchPoint, Nav};
use bounce_fpv::goggle::{control_of, with_rehome, Button, ButtonEvent, GoggleLink, GogglePanel, Press, Reply};
use bounce_fpv::gps::{FixQuality, GpsFix};
use bounce_fpv::imu::{HomeError, HomeSampler, Sampling, DEFAULT_SETTLE_MS, SAMPLE_INTERVAL_MS};
use bounce_fpv::lora_link::{LinkHealth, LinkState, Serviced};
use bounce_fpv::ppm_decoder::{Config, EdgeTimer, PpmDecoder};
use bounce_fpv::proto::{Control, Telemetry, FLAG_REHOME};
use bounce_fpv::truck::{
    rehome_requested, telemetry_of, trimmed_pulse, Heard, ServoLoop, TruckLink, TruckPanel, Turn, Window, CONTROL_TIMEOUT_MS,
    REINIT_AFTER_MISSES, REINIT_BACKOFF_MISSES,
};

fn control(pan_us: u32, tilt_us: u32) -> Control {
    Control { pan_us, tilt_us, flags: 0 }
}

// ---- radio -----------------------------------------------------------------------------------------------------

#[test]
fn command_and_reply_cross_the_link() {
    let binding = bounce_fpv::link_id::derive("pair-a");
    let mut goggle = GoggleLink::new(binding);
    let mut truck = TruckLink::new(binding);
    let mut air = ByteBuf::new::<40>();

    // Center goes out until the first frame.
    goggle.tick(None, &mut air).unwrap();
    assert_eq!(truck.hear(air.as_slice()), Heard::Command(control(1500, 1500)));

    goggle.tick(Some(control(1200, 1800)), &mut air).unwrap();
    assert_eq!(truck.hear(air.as_slice()), Heard::Command(control(1200, 1800)));
    // Without a fresher command the last one is sent again.
    goggle.tick(None, &mut air).unwrap();
    assert_eq!(truck.hear(air.as_slice()), Heard::Command(control(1200, 1800)));

    // An all-default telemetry still makes a frame.
    truck.reply(None, &mut air).unwrap();
    assert_eq!(air.len(), 4);
    assert_eq!(goggle.hear(air.as_slice()), Reply::Telemetry(Telemetry::default()));

    let telemetry = Telemetry { speed_cm_s: 278, sats: 8, fix_quality: 1, dist_m: 0, bearing_deg: 0, nav_valid: 0 };
    truck.reply(Some(telemetry), &mut air).unwrap();
    assert_eq!(goggle.hear(air.as_slice()), Reply::Telemetry(telemetry));
    // The latest telemetry is kept for the next reply.
    truck.reply(None, &mut air).unwrap();
    assert_eq!(goggle.hear(air.as_slice()), Reply::Telemetry(telemetry));
}

#[test]
fn truck_answers_commands_and_nothing_else() {
    let binding = bounce_fpv::link_id::derive("pair-a");
    let mut goggle = GoggleLink::new(binding);
    let mut truck = TruckLink::new(binding);
    let mut air = ByteBuf::new::<40>();
    let mut reply = ByteBuf::new::<40>();
    let telemetry = Telemetry { speed_cm_s: 278, sats: 8, fix_quality: 1, dist_m: 12, bearing_deg: 90, nav_valid: 1 };

    // Frames of another pair and garbage of the own one are not answered.
    GoggleLink::new(bounce_fpv::link_id::derive("pair-b")).tick(None, &mut air).unwrap();
    assert_eq!(truck.on_frame(air.as_slice(), None, &mut reply), Turn::Listen(Window::Foreign));
    bounce_fpv::link_id::frame(&binding, &[0x08], &mut air).unwrap();
    assert_eq!(truck.on_frame(air.as_slice(), Some(telemetry), &mut reply), Turn::Listen(Window::Garbage));
    assert!(reply.is_empty());

    // A command is, with the latest telemetry.
    goggle.tick(Some(control(1200, 1800)), &mut air).unwrap();
    assert_eq!(truck.on_frame(air.as_slice(), None, &mut reply), Turn::Reply(control(1200, 1800)));
    assert_eq!(goggle.hear(reply.as_slice()), Reply::Telemetry(telemetry));

    // Without room for the reply it is obeyed all the same.
    let mut cramped = ByteBuf::new::<4>();
    assert_eq!(truck.on_frame(air.as_slice(), None, &mut cramped), Turn::Obey(control(1200, 1800)));
    assert_eq!(cramped.as_slice(), binding.link_id.as_slice());
}

#[test]
fn another_pair_is_not_heard() {
    let mut goggle = GoggleLink::new(bounce_fpv::link_id::derive("pair-a"));
    let mut truck = TruckLink::new(bounce_fpv::link_id::derive("pair-b"));
    let mut air = ByteBuf::new::<40>();
    goggle.tick(Some(control(1000, 1000)), &mut air).unwrap();
    assert_eq!(truck.hear(air.as_slice()), Heard::Foreign);
    truck.reply(None, &mut air).unwrap();
    assert_eq!(goggle.hear(air.as_slice()), Reply::Foreign);
    assert_eq!(goggle.hear(&[1, 2, 3]), Reply::Foreign);
}

#[test]
fn garbage_of_the_own_pair_is_told_apart() {
    let binding = bounce_fpv::link_id::derive("pair-a");
    let mut air = ByteBuf::new::<40>();
    bounce_fpv::link_id::frame(&binding, &[0x08], &mut air).unwrap();
    assert_eq!(TruckLink::new(binding).hear(air.as_slice()), Heard::Garbage);
    assert_eq!(GoggleLink::new(binding).hear(air.as_slice()), Reply::Garbage);
}

#[test]
fn small_buffers_are_refused() {
    let binding = bounce_fpv::link_id::derive("pair-a");
    let mut air = ByteBuf::new::<9>();
    assert!(GoggleLink::new(binding).tick(None, &mut air).is_err());
    let mut air = ByteBuf::new::<10>();
    assert!(GoggleLink::new(binding).tick(None, &mut air).is_ok());
    let mut air = ByteBuf::new::<3>();
    assert!(TruckLink::new(binding).reply(None, &mut air).is_err());
}

#[test]
fn radio_is_reset_after_silence_and_backs_off() {
    let mut truck = TruckLink::new(bounce_fpv::link_id::derive("pair-a"));
    assert_eq!(truck.state(), LinkState::Tentative);
    for _ in 1..REINIT_AFTER_MISSES {
        assert_eq!(truck.service(Window::Silence), Serviced::Idle);
    }
    assert_eq!(truck.service(Window::RxError), Serviced::Reinit);
    assert_eq!(truck.state(), LinkState::Disconnected);
    for _ in 1..REINIT_BACKOFF_MISSES {
        assert_eq!(truck.service(Window::ReplyStalled), Serviced::Idle);
        assert_eq!(truck.service(Window::Foreign), Serviced::Idle);
    }
    assert_eq!(truck.service(Window::Silence), Serviced::Reinit);
    assert_eq!(truck.service(Window::Answered), Serviced::Idle);
    assert_eq!(truck.state(), LinkState::Connected);
    assert_eq!(truck.service(Window::Silence), Serviced::Idle);
    assert_eq!(truck.state(), LinkState::Tentative);
    assert_eq!(truck.service(Window::Garbage), Serviced::Idle);
    assert_eq!(truck.state(), LinkState::Connected);
    assert_eq!(truck.service(Window::NoReply), Serviced::Idle);
    assert_eq!(truck.state(), LinkState::Connected);
}

#[test]
fn foreign_frames_never_reset_the_radio() {
    let mut health = LinkHealth::new(2, 3);
    for _ in 0..100 {
        assert_eq!(health.service(None), Serviced::Idle);
    }
    assert_eq!(health.service(Some(false)), Serviced::Idle);
    assert_eq!(health.service(None), Serviced::Idle);
    assert_eq!(health.service(Some(false)), Serviced::Reinit);
}

// ---- servos ----------------------------------------------------------------------------------------------------

#[test]
fn servo_loop_homes_follows_and_recenters() {
    let mut servos = ServoLoop::new(0, 10, -10);
    assert_eq!(servos.tick(20, None), Some((1510, 1490))); // the first tick homes
    assert_eq!(servos.tick(40, None), None);
    assert_eq!(servos.tick(60, Some(control(1200, 1800))), Some((1210, 1790)));
    assert_eq!(servos.tick(80, None), None);
    assert_eq!(servos.tick(60 + CONTROL_TIMEOUT_MS - 1, None), None);
    assert_eq!(servos.tick(60 + CONTROL_TIMEOUT_MS, None), Some((1510, 1490)));
    assert_eq!(servos.tick(5_000, None), None); // the failsafe fires once
    assert_eq!(servos.tick(5_020, Some(control(1500, 1500))), Some((1510, 1490)));
    assert_eq!(servos.tick(9_000, None), None); // already centered
}

#[test]
fn pulses_never_leave_the_band() {
    assert_eq!(trimmed_pulse(0, 0), 1000);
    assert_eq!(trimmed_pulse(u32::MAX, 0), 2000);
    assert_eq!(trimmed_pulse(u32::MAX, i32::MAX), 2000);
    assert_eq!(trimmed_pulse(u32::MAX, i32::MIN), 2000);
    assert_eq!(trimmed_pulse(1990, 11), 2000);
    assert_eq!(trimmed_pulse(1005, -11), 1000);
}

// ---- head tracking ---------------------------------------------------------------------------------------------

#[test]
fn frames_become_commands() {
    let mut decoder = PpmDecoder::new(Config::default());
    for w in [1000u32, 1500, 2000, 1500, 1100, 1900] {
        decoder.feed(w);
    }
    let frame = decoder.feed(5_000).unwrap();
    assert_eq!(control_of(&frame), control(1100, 1900));
    // A short frame centers the axes that it does not carry.
    for w in [1000u32, 1500, 2000, 1500, 1100] {
        decoder.feed(w);
    }
    let frame = decoder.feed(5_000).unwrap();
    assert_eq!(control_of(&frame), control(1100, 1500));
}

#[test]
fn edges_are_timed_from_the_second_on() {
    let mut timer = EdgeTimer::new();
    assert_eq!(timer.edge(100), None);
    assert_eq!(timer.edge(1_600), Some(1_500));
    timer.reset();
    assert_eq!(timer.edge(9_000), None);
    assert_eq!(timer.edge(9_000 + (1 << 32) + 7), Some(7)); // cut to 32 bits
}

// ---- panels ----------------------------------------------------------------------------------------------------

#[test]
fn goggle_panel_follows_replies_and_laps() {
    let mut panel = GogglePanel::new(100);
    // The link reads down until the first reply, right after boot too.
    assert_eq!(panel.tick(120, None, false), Status::default());
    let telemetry = Telemetry { speed_cm_s: 1000, sats: 7, fix_quality: 1, ..Telemetry::default() };
    let status = panel.tick(2_100, Some(telemetry), false);
    assert_eq!(status, Status { speed_cm_s: 1000, link_up: true, gps_fix: true, lap_secs: 2 });
    assert!(panel.tick(2_599, None, false).link_up);
    assert!(!panel.tick(2_600, None, false).link_up);
    assert_eq!(panel.tick(3_000, None, true).lap_secs, 0);
    assert_eq!(panel.tick(4_999, None, false).lap_secs, 1);
}

#[test]
fn truck_panel_follows_speed_and_signal() {
    let mut panel = TruckPanel::new();
    let first = panel.tick(10, None, None);
    assert_eq!(first, TruckStatus { mph: 0, kmh: 0, bars: 0, rssi: -127, linked: false });
    let telemetry = Telemetry { speed_cm_s: 2235, ..Telemetry::default() };
    let status = panel.tick(1_000, Some(telemetry), Some(-80));
    assert_eq!(status, TruckStatus { mph: 50, kmh: 80, bars: 3, rssi: -80, linked: true });
    let stale = panel.tick(1_500, None, None);
    assert_eq!(stale, TruckStatus { mph: 50, kmh: 80, bars: 0, rssi: -80, linked: false });
}

// ---- button ----------------------------------------------------------------------------------------------------

#[test]
fn one_press_is_one_reset() {
    let mut button = Button::Released;
    assert_eq!(button.on(ButtonEvent::Fell), Press::Nothing);
    assert_eq!(button.on(ButtonEvent::Fell), Press::Nothing); // a bounce
    assert_eq!(button.on(ButtonEvent::Settled { low: true }), Press::LapReset);
    assert_eq!(button.on(ButtonEvent::Settled { low: true }), Press::Nothing);
    assert_eq!(button.on(ButtonEvent::Rose), Press::Nothing);
    assert_eq!(button, Button::Released);
    // A glitch is gone by the end of the window.
    assert_eq!(button.on(ButtonEvent::Fell), Press::Nothing);
    assert_eq!(button.on(ButtonEvent::Settled { low: false }), Press::Nothing);
    assert_eq!(button.on(ButtonEvent::HeldLong), Press::Nothing);
    assert_eq!(button, Button::Released);
}

#[test]
fn one_long_press_is_one_request() {
    let mut button = Button::Released;
    button.on(ButtonEvent::Fell);
    assert_eq!(button.on(ButtonEvent::Settled { low: true }), Press::LapReset);
    assert_eq!(button.on(ButtonEvent::HeldLong), Press::Rehome);
    assert_eq!(button.on(ButtonEvent::HeldLong), Press::Nothing);
    assert_eq!(button, Button::Held);
    assert_eq!(button.on(ButtonEvent::Rose), Press::Nothing);
    assert_eq!(button, Button::Released);
}

#[test]
fn rehome_request_rides_on_one_command() {
    let binding = bounce_fpv::link_id::derive("pair-a");
    let mut goggle = GoggleLink::new(binding);
    let truck = TruckLink::new(binding);
    let mut air = ByteBuf::new::<22>();
    goggle.request_rehome();
    // A command that could not be built does not use the request up.
    assert!(goggle.tick(None, &mut ByteBuf::new::<4>()).is_err());
    goggle.tick(Some(control(1200, 1800)), &mut air).unwrap();
    let asking = Control { pan_us: 1200, tilt_us: 1800, flags: FLAG_REHOME };
    assert_eq!(truck.hear(air.as_slice()), Heard::Command(asking));
    goggle.tick(None, &mut air).unwrap();
    assert_eq!(truck.hear(air.as_slice()), Heard::Command(control(1200, 1800)));

    assert_eq!(with_rehome(control(1000, 2000), true), Control { pan_us: 1000, tilt_us: 2000, flags: 1 });
    assert_eq!(with_rehome(asking, false), asking);
}

#[test]
fn rehome_trims_at_once() {
    assert!(rehome_requested(&with_rehome(control(1500, 1500), true)));
    assert!(!rehome_requested(&control(1500, 1500)));
    assert!(!rehome_requested(&Control { pan_us: 0, tilt_us: 0, flags: 2 }));
    assert!(rehome_requested(&Control { pan_us: 0, tilt_us: 0, flags: 3 }));

    let mut servos = ServoLoop::new(0, 0, 0);
    assert_eq!(servos.tick(20, Some(control(1200, 1800))), Some((1200, 1800)));
    assert_eq!(servos.tick(40, None), None);
    servos.rehome(11, -22);
    // The pose is kept, and written once with the new trims.
    assert_eq!(servos.tick(60, None), Some((1211, 1778)));
    assert_eq!(servos.tick(80, None), None);
    // The failsafe still counts from the last command.
    assert_eq!(servos.tick(20 + CONTROL_TIMEOUT_MS, None), Some((1511, 1478)));
}

// ---- navigation ------------------------------------------------------------------------------------------------

fn fix(raw: u8, lat_e7: i32, lon_e7: i32) -> GpsFix {
    GpsFix {
        speed_cm_s: 100,
        satellites: Some(9),
        fix: Some(FixQuality { raw }),
        lat_e7: Some(lat_e7),
        lon_e7: Some(lon_e7),
    }
}

#[test]
fn first_trusted_position_is_the_launch_point() {
    let mut launch = LaunchPoint::new();
    assert_eq!(launch.observe(&GpsFix::default()), None);
    assert_eq!(launch.observe(&fix(0, 1, 2)), None);
    let home = CoordE7 { lat_e7: 480_000_000, lon_e7: 110_000_000 };
    assert_eq!(launch.observe(&fix(1, 480_000_000, 110_000_000)), Some((home, home)));
    let here = CoordE7 { lat_e7: 480_001_000, lon_e7: 110_000_000 };
    assert_eq!(launch.observe(&fix(2, 480_001_000, 110_000_000)), Some((home, here)));
    assert_eq!(position(&fix(1, 5, 6)), Some(CoordE7 { lat_e7: 5, lon_e7: 6 }));
}

#[test]
fn deltas_do_not_overflow() {
    let a = CoordE7 { lat_e7: i32::MIN, lon_e7: 1_800_000_000 };
    let b = CoordE7 { lat_e7: i32::MAX, lon_e7: -1_800_000_000 };
    assert_eq!(delta_e7(a, b), (4_294_967_295, -3_600_000_000));
    assert_eq!(CoordE7::default(), CoordE7 { lat_e7: 0, lon_e7: 0 });
}

#[test]
fn bearings_are_folded_and_distances_saturate() {
    assert_eq!(nav_from_rounded(7, 360), Nav { distance_m: 7, bearing_deg: 0 });
    assert_eq!(nav_from_rounded(7, -1), Nav { distance_m: 7, bearing_deg: 359 });
    assert_eq!(nav_from_rounded(u64::MAX, 90), Nav { distance_m: u32::MAX, bearing_deg: 90 });
    assert_eq!(Nav::default(), Nav { distance_m: 0, bearing_deg: 0 });
}

#[test]
fn fixes_become_telemetry() {
    let nav = Nav { distance_m: 12, bearing_deg: 300 };
    assert_eq!(
        telemetry_of(&fix(1, 0, 0), Some(nav)),
        Telemetry { speed_cm_s: 100, sats: 9, fix_quality: 1, dist_m: 12, bearing_deg: 300, nav_valid: 1 }
    );
    assert_eq!(telemetry_of(&GpsFix::default(), None), Telemetry::default());
}

// ---- home ------------------------------------------------------------------------------------------------------

#[test]
fn home_is_sampled_after_settling() {
    let mut sampler = HomeSampler::new(2);
    assert_eq!(sampler.state(), Sampling::Wake);
    sampler.woken(true);
    assert_eq!(sampler.state(), Sampling::WaitThenRead(DEFAULT_SETTLE_MS));
    sampler.sampled(true);
    assert_eq!(sampler.state(), Sampling::WaitThenRead(SAMPLE_INTERVAL_MS));
    sampler.sampled(true);
    assert_eq!(sampler.state(), Sampling::WaitThenAverage(SAMPLE_INTERVAL_MS));
    assert_eq!(sampler.count(), 2);
}

#[test]
fn home_failures_are_told_apart() {
    let mut sampler = HomeSampler::new(0);
    assert_eq!(sampler.count(), 1); // no samples means one
    sampler.woken(false);
    assert_eq!(sampler.state(), Sampling::Failed(HomeError::Init));
    let mut sampler = HomeSampler::new(5);
    sampler.woken(true);
    sampler.sampled(false);
    assert_eq!(sampler.state(), Sampling::Failed(HomeError::Read));
}
