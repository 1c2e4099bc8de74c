use bounce_fpv::applog::{
    is_bootloader_touch, usb_power, write_bytes, LogPipe, PanicStore, PipeWriter, UsbIdentity, PANIC_BUF_LEN,
    PIPE_BYTES,
};
use bounce_fpv::board::{board_pins, Pad, LORA_NSS_PIN, PPM_PIN};
use bounce_fpv::buffer::TextBuf;
use bounce_fpv::lora_ping::{
    echo_payload, ping_payload, ping_seq, valid_echo, Ping, PingEvent, Pinger, Rtt, Summary, PING_MAGIC, PONG_MAGIC,
};
use bounce_fpv::nrf_spike::format_alive;
use bounce_fpv::ppm_decoder::{Frame, MeasuredFrame};
use bounce_fpv::ppm_diag::{print_frame, stats_lines, waiting_lines, PpmDiag, PpmStats};
use bounce_fpv::text::{put_dec, put_int, put_pad2, put_right, put_sgn, yn};
use bounce_fpv::truck_diag::{
    demo_pose, demo_status, sweep_leg, sweep_legs, triangle, Animation, RenderSpeed, RenderWindow,
};

fn strings(lines: &[TextBuf]) -> Vec<String> {
    lines.iter().map(|l| l.as_str().to_string()).collect()
}

// ---- text ------------------------------------------------------------------------------------------------------

#[test]
fn numbers_as_text() {
    let mut t = TextBuf::new::<64>();
    put_pad2(&mut t, 7);
    t.push_str(" ").unwrap();
    put_pad2(&mut t, 123);
    t.push_str(" ").unwrap();
    put_sgn(&mut t, -5);
    t.push_str(" ").unwrap();
    put_sgn(&mut t, 42);
    t.push_str(" ").unwrap();
    put_int(&mut t, i32::MIN);
    t.push_str(" ").unwrap();
    put_dec(&mut t, u32::MAX);
    t.push_str("|").unwrap();
    put_right(&mut t, 7, 4);
    put_right(&mut t, 12345, 4);
    assert_eq!(t.as_str(), "07 123 -05 +42 -2147483648 4294967295|   712345");
    assert_eq!((yn(true), yn(false)), ("Y", "N"));
}

#[test]
fn text_buffer_counts_bytes() {
    let mut t = TextBuf::new::<4>();
    assert!(t.push_str("abc").is_ok());
    assert!(t.push_str("é").is_err()); // two bytes do not fit
    assert_eq!(t.as_str(), "abc");
    assert!(t.push_str("d").is_ok());
    assert_eq!(t.char_len(), 4);
}

// ---- ping ------------------------------------------------------------------------------------------------------

#[test]
fn echoes_match_their_ping() {
    let ping = ping_payload(0x0403_0201);
    assert_eq!(ping, [1, 2, 3, 4, PING_MAGIC]);
    let echo = echo_payload(&ping);
    assert_eq!(echo, [1, 2, 3, 4, PONG_MAGIC]);
    assert!(valid_echo(&echo, 0x0403_0201));
    assert!(!valid_echo(&echo, 0x0403_0202));
    assert!(!valid_echo(&ping, 0x0403_0201)); // the ping itself, leaked back
    assert!(!valid_echo(&echo[..4], 0x0403_0201));
    assert_eq!(ping_seq(&ping), Some(0x0403_0201));
    assert_eq!(ping_seq(&echo), None);
    assert_eq!(echo_payload(&[9, 8]), [9, 8, 0, 0, PONG_MAGIC]);
    assert_eq!(echo_payload(&[1, 2, 3, 4, 5, 6]), [1, 2, 3, 4, PONG_MAGIC]);
}

#[test]
fn round_trips_are_tallied() {
    let mut pinger = Pinger::new();
    assert_eq!(pinger.payload(), [0, 0, 0, 0, PING_MAGIC]);
    assert!(pinger.is_our_echo(&[0, 0, 0, 0, PONG_MAGIC]));
    for rtt in [20u64, 10, 33] {
        assert_eq!(pinger.done(Ping::Echoed(rtt)), None);
    }
    for _ in 0..6 {
        assert_eq!(pinger.done(Ping::Lost), None);
    }
    assert_eq!(
        pinger.done(Ping::Echoed(18)),
        Some(Summary { pings: 10, echoes: 4, lost: 6, rtt: Some(Rtt { min_us: 10, avg_us: 20, max_us: 33 }) })
    );
    // A ping that was not sent counts as neither, but uses up its number.
    for _ in 0..10 {
        assert_eq!(pinger.done(Ping::NotSent), None);
    }
    assert_eq!(pinger.payload(), [20, 0, 0, 0, PING_MAGIC]);
}

#[test]
fn no_echo_means_no_round_trip() {
    let mut pinger = Pinger::new();
    for _ in 0..9 {
        assert_eq!(pinger.done(Ping::Lost), None);
    }
    assert_eq!(pinger.done(Ping::Lost), Some(Summary { pings: 10, echoes: 0, lost: 10, rtt: None }));
}

// ---- alive line ------------------------------------------------------------------------------------------------

#[test]
fn only_the_own_echo_is_a_round_trip() {
    let pinger = Pinger::new();
    let echo = echo_payload(&pinger.payload());
    let stray = echo_payload(&ping_payload(1));
    assert_eq!(pinger.outcome(PingEvent::SendFailed), Ping::NotSent);
    assert_eq!(pinger.outcome(PingEvent::Received { packet: &echo, rtt_us: 21_000 }), Ping::Echoed(21_000));
    assert_eq!(pinger.outcome(PingEvent::Received { packet: &stray, rtt_us: 21_000 }), Ping::Lost);
    assert_eq!(pinger.outcome(PingEvent::Received { packet: &pinger.payload(), rtt_us: 5 }), Ping::Lost);
    assert_eq!(pinger.outcome(PingEvent::ReceiveFailed), Ping::Lost);
    assert_eq!(pinger.outcome(PingEvent::Silence), Ping::Lost);
}

#[test]
fn alive_lines() {
    let mut buf = [7u8; 32];
    let len = format_alive(&mut buf, 0);
    assert_eq!(&buf[..len], b"nrf-spike: alive 0\r\n");
    assert_eq!(buf[len..], [7; 12]);
    let len = format_alive(&mut buf, 1_203);
    assert_eq!(&buf[..len], b"nrf-spike: alive 1203\r\n");
    let len = format_alive(&mut buf, u32::MAX);
    assert_eq!(&buf[..len], b"nrf-spike: alive 4294967295\r\n");
}

// ---- ppm -------------------------------------------------------------------------------------------------------

#[test]
fn printed_frames() {
    let mut channels = [0u16; 16];
    channels[0] = 1500;
    channels[1] = 900;
    let frame = Frame { channels, count: 2 };
    let lines = print_frame(&MeasuredFrame { frame, sync_gap_us: 4_200, corrupt: true }, 50);
    assert_eq!(
        strings(&lines),
        vec![
            "frame: 2 channels | sync gap 4200 us | 50 frames since last print (CORRUPT)",
            "  ch 1: 1500 us",
            "  ch 2:  900 us",
            "",
        ]
    );
    let lines = print_frame(&MeasuredFrame { frame, sync_gap_us: 1, corrupt: false }, 0);
    assert_eq!(lines[0].as_str(), "frame: 2 channels | sync gap 1 us | 0 frames since last print");
}

#[test]
fn panel_lines_of_the_ppm_diagnostic() {
    assert_eq!(
        strings(&waiting_lines(12, Some(true))),
        vec!["PPM: no frames", "edges 12", "idle HIGH", "climb=signal present", "0=static / no pulses"]
    );
    assert_eq!(waiting_lines(0, Some(false))[2].as_str(), "idle LOW");
    assert_eq!(waiting_lines(0, None)[2].as_str(), "idle ?");
    let stats =
        PpmStats { channels: 8, sync_gap_us: u32::MAX, corrupt: true, pan_us: 1100, tilt_us: 1900, frames: u32::MAX };
    assert_eq!(
        strings(&stats_lines(stats)),
        vec!["PPM diag", "ch 8  #4294967295", "sync 4294967295us COR", "ch5 pan  1100", "ch6 tilt 1900"]
    );
    assert_eq!(stats_lines(PpmStats::default())[2].as_str(), "sync 0us");
}

#[test]
fn edges_become_reports() {
    let mut diag = PpmDiag::new(0);
    let mut now = 0u64;
    let mut reports = Vec::new();
    for _ in 0..120 {
        for w in [4_000u64, 1000, 1500, 2000, 1500, 1100, 1900] {
            now += w;
            if let Some(r) = diag.edge(now) {
                reports.push(r);
            }
        }
    }
    assert_eq!(diag.edges(), 840);
    // The first gap only sets the reference; every later one closes a frame.
    assert_eq!(reports.len(), 119);
    let last = reports[118];
    assert_eq!(
        last.stats,
        PpmStats { channels: 6, sync_gap_us: 4_000, corrupt: false, pan_us: 1100, tilt_us: 1900, frames: 119 }
    );
    let printed: Vec<(usize, u32)> =
        reports.iter().enumerate().filter_map(|(i, r)| r.print.map(|(_, since)| (i, since))).collect();
    // One print per second of 13 ms frames.
    assert_eq!(printed, vec![(76, 77)]);
    diag.silence();
    assert!(diag.edge(now + 10_000_000).is_none());
}

// ---- truck bench -----------------------------------------------------------------------------------------------

#[test]
fn sweep_legs_land_on_their_target() {
    assert_eq!(sweep_leg(1500, 1500), vec![1500]);
    assert_eq!(sweep_leg(1500, 1440), vec![1500, 1475, 1450, 1440]);
    assert_eq!(sweep_leg(1000, 1060), vec![1000, 1025, 1050, 1060]);
    assert_eq!(sweep_leg(65_530, 65_535), vec![65_530, 65_535]);
    assert_eq!(sweep_leg(1000, 2000).len(), 41);
    assert_eq!(sweep_legs(), [(1500, 1500), (1500, 1000), (1000, 2000), (2000, 1500)]);
}

#[test]
fn triangle_waves() {
    assert_eq!(triangle(0, 150, 1000, 2000), 1000);
    assert_eq!(triangle(75, 150, 1000, 2000), 2000);
    assert_eq!(triangle(76, 150, 1000, 2000), 1986);
    assert_eq!(triangle(151, 150, 1000, 2000), 1013);
    assert_eq!(demo_pose(0), (1000, 1500));
    assert_eq!(demo_pose(75), (2000, 1150));
}

#[test]
fn demo_panel() {
    let s = demo_status(10_000, 0);
    assert_eq!((s.mph, s.kmh, s.rssi, s.bars, s.linked), (60, 97, -45, 4, true));
    let s = demo_status(20_000, 70);
    assert_eq!((s.mph, s.rssi, s.bars), (1, -115, 1));
    let s = demo_status(0, 260);
    assert_eq!((s.linked, s.bars), (false, 0));
}

#[test]
fn panel_animation() {
    let mut a = Animation::new();
    let first = a.step();
    assert_eq!((first.speed_cm_s, first.link_up, first.gps_fix, first.lap_secs), (0, true, true, 0));
    let second = a.step();
    assert_eq!((second.speed_cm_s, second.link_up, second.gps_fix, second.lap_secs), (25, false, false, 1));
    for _ in 2..20 {
        a.step();
    }
    assert_eq!(a.step().speed_cm_s, 0); // wrapped
}

#[test]
fn render_speed_comes_once_a_second() {
    let mut w = RenderWindow::new(0);
    assert_eq!(w.flushed(400_000, 30), None);
    assert_eq!(w.flushed(800_000, 50), None);
    assert_eq!(w.flushed(1_000_000, 40), Some(RenderSpeed { frames: 3, last_us: 40, max_us: 50 }));
    assert_eq!(w.flushed(1_100_000, 5), None);
}

// ---- logging ---------------------------------------------------------------------------------------------------

#[test]
fn log_comes_out_in_order() {
    let mut pipe = LogPipe::new();
    write_bytes(&mut pipe, b"hello ");
    PipeWriter { pipe: &mut pipe }.write_str("world");
    let mut buf = [0u8; 64];
    let n = pipe.read_packet(&mut buf);
    assert_eq!(&buf[..n], b"hello world");
    assert_eq!(pipe.read_packet(&mut buf), 0);
}

#[test]
fn full_log_drops_the_rest() {
    let mut pipe = LogPipe::new();
    let mut buf = [0u8; 64];
    // Move the ring's start, so that the writes below wrap around.
    write_bytes(&mut pipe, &[0; 100]);
    while pipe.read_packet(&mut buf) > 0 {}
    let bytes: Vec<u8> = (0..2_000u32).map(|i| i as u8).collect();
    write_bytes(&mut pipe, &bytes);
    write_bytes(&mut pipe, b"lost");
    let mut drained: Vec<u8> = Vec::new();
    loop {
        let n = pipe.read_packet(&mut buf);
        if n == 0 {
            break;
        }
        drained.extend_from_slice(&buf[..n]);
    }
    assert_eq!(drained.len(), PIPE_BYTES);
    assert_eq!(drained, bytes[..PIPE_BYTES].to_vec());
}

#[test]
fn packets_end_where_the_ring_does() {
    let mut pipe = LogPipe::new();
    let mut buf = [0u8; 64];
    write_bytes(&mut pipe, &[0; 1_000]);
    while pipe.read_packet(&mut buf) > 0 {}
    write_bytes(&mut pipe, &[7; 50]);
    buf = [9; 64];
    assert_eq!(pipe.read_packet(&mut buf), 24);
    assert_eq!(buf[..24], [7; 24]);
    assert_eq!(buf[24..], [9; 40]);
    assert_eq!(pipe.read_packet(&mut buf), 26);
}

#[test]
fn panic_message_is_reported_once() {
    let mut store = PanicStore::new();
    assert_eq!(store.take(), None);
    store.begin();
    store.write_str("panicked at ");
    store.write_str("main.rs");
    assert_eq!(store.take(), None); // not complete yet
    store.begin();
    store.write_str("panicked at ");
    store.write_str("main.rs");
    store.commit();
    assert_eq!(store.take(), Some(b"panicked at main.rs".to_vec()));
    assert_eq!(store.take(), None);
}

#[test]
fn panic_store_fields() {
    let mut store = PanicStore { magic: 5, len: 9_999, buf: [7; PANIC_BUF_LEN] };
    assert_eq!(store.take(), None);
    assert_eq!(store.magic, 5); // garbage is left alone
    store.begin();
    assert_eq!((store.magic, store.len), (0, 0));
    store.write_str("ab");
    assert_eq!(store.buf[..3], [97, 98, 7]);
    store.commit();
    assert_eq!(store.buf[..3], [97, 98, 7]);
    assert_eq!(store.take(), Some(vec![97, 98]));
    assert_eq!(store.magic, 0);
}

#[test]
fn long_panic_message_is_cut() {
    let mut store = PanicStore::new();
    store.begin();
    for _ in 0..100 {
        store.write_str("0123456789");
    }
    store.commit();
    let message = store.take().unwrap();
    assert_eq!(message.len(), PANIC_BUF_LEN);
    assert_eq!(&message[250..], b"012345");
    // Garbage that happens to carry the mark is not read past the buffer.
    store.magic = 0x504e_4943;
    store.len = usize::MAX;
    assert_eq!(store.take().unwrap().len(), PANIC_BUF_LEN);
}

#[test]
fn usb_details() {
    let id = UsbIdentity::new(0x1209, 0x0001, "fabulous-fpv", "truck", "d");
    assert_eq!((id.vid, id.pid, id.manufacturer, id.product, id.serial_number), (0x1209, 1, "fabulous-fpv", "truck", "d"));
    assert_eq!(usb_power(0), (false, false));
    assert_eq!(usb_power(1), (true, false));
    assert_eq!(usb_power(2), (false, true));
    assert_eq!(usb_power(0xffff_ffff), (true, true));
    assert!(is_bootloader_touch(1200));
    assert!(!is_bootloader_touch(115_200));
}

// ---- board -----------------------------------------------------------------------------------------------------

#[test]
fn pin_map() {
    let pins = board_pins();
    assert_eq!(pins.ppm, Pad { port: 0, pin: PPM_PIN });
    assert_eq!(pins.lora_nss, Pad { port: 0, pin: LORA_NSS_PIN });
    assert_eq!(pins.gps_tx, Pad { port: 1, pin: 6 });
    assert_eq!(pins.button, Pad { port: 1, pin: 0 });
}
