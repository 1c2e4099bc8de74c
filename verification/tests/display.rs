use bounce_fpv::display::{
  cm_s_to_kmh, cm_s_to_mph, lit_segments, pan_us_to_deg, probe_address, rssi_to_bars, tilt_us_to_deg, Align, Font,
  GoggleStatus, Op, Status, StatusDisplay, TruckStatus, ADDR, ADDR_ALT,
};

#[test]
fn cm_s_to_kmh_rounds_to_nearest() {
  assert_eq!(cm_s_to_kmh(0), 0);
  assert_eq!(cm_s_to_kmh(1000), 36); //  1000 cm/s = 36.0 km/h.
  assert_eq!(cm_s_to_kmh(278), 10); //  277.78 cm/s ~= 10 km/h, rounds up.
  assert_eq!(cm_s_to_kmh(13), 0); //  0.468 km/h rounds down to 0.
  assert_eq!(cm_s_to_kmh(14), 1); //  0.504 km/h rounds up to 1.
}

#[test]
fn cm_s_to_kmh_does_not_overflow_at_u32_max() {
  // cm_s * 36 overflows u32 for cm_s > ~119M; the u64 intermediate must keep this from wrapping/panicking.
  let kmh = cm_s_to_kmh(u32::MAX);
  assert_eq!(kmh, ((u32::MAX as u64 * 36 + 500) / 1000) as u32);
  assert_eq!(kmh, 154_618_823);
}

#[test]
fn status_default_zeroes_lap_secs() {
  // The lap timer reads zero at boot/reset, before the first tick has elapsed.
  assert_eq!(Status::default().lap_secs, 0);
}

#[test]
fn cm_s_to_mph_rounds_to_nearest() {
  assert_eq!(cm_s_to_mph(0), 0);
  assert_eq!(cm_s_to_mph(447), 10); //  447 cm/s ~= 9.999 mph, rounds to 10.
  assert_eq!(cm_s_to_mph(448), 10); //  448 cm/s ~= 10.02 mph.
  assert_eq!(cm_s_to_mph(2235), 50); //  2235 cm/s ~= 49.99 mph, rounds to 50.
  assert_eq!(cm_s_to_mph(22), 0); //  0.492 mph rounds down to 0.
  assert_eq!(cm_s_to_mph(23), 1); //  0.514 mph rounds up to 1.
}

#[test]
fn cm_s_to_mph_does_not_overflow_at_u32_max() {
  // cm_s * 3600 overflows u32 for cm_s > ~1.19M; the u64 intermediate must keep this from wrapping/panicking.
  let mph = cm_s_to_mph(u32::MAX);
  assert_eq!(mph, ((u32::MAX as u64 * 3600 + 160934 / 2) / 160934) as u32);
}

#[test]
fn rssi_to_bars_steps_at_thresholds() {
  // Down link is always zero bars regardless of the last RSSI.
  assert_eq!(rssi_to_bars(-40, false), 0);
  // Strictly-greater-than thresholds: -75/-90/-105 are the step-DOWN boundaries.
  assert_eq!(rssi_to_bars(-74, true), 4);
  assert_eq!(rssi_to_bars(-75, true), 3);
  assert_eq!(rssi_to_bars(-89, true), 3);
  assert_eq!(rssi_to_bars(-90, true), 2);
  assert_eq!(rssi_to_bars(-104, true), 2);
  assert_eq!(rssi_to_bars(-105, true), 1);
  assert_eq!(rssi_to_bars(-130, true), 1);
}

#[test]
fn us_to_deg_maps_and_clamps() {
  // Center us is zero degrees; +-500 us spans the full +-45 (pan) / +-30 (tilt) range.
  assert_eq!(pan_us_to_deg(1500), 0);
  assert_eq!(pan_us_to_deg(2000), 45);
  assert_eq!(pan_us_to_deg(1000), -45);
  assert_eq!(pan_us_to_deg(1750), 22); //  250*9/100 = 22.5, truncates toward zero to 22.
  assert_eq!(pan_us_to_deg(2200), 45); //  overrange clamps.
  assert_eq!(pan_us_to_deg(800), -45);
  assert_eq!(tilt_us_to_deg(1500), 0);
  assert_eq!(tilt_us_to_deg(2000), 30);
  assert_eq!(tilt_us_to_deg(1000), -30);
  assert_eq!(tilt_us_to_deg(1600), 6); //  100*3/50 = 6.
  assert_eq!(tilt_us_to_deg(2200), 30); //  overrange clamps.
}

#[test]
fn goggle_status_participates_in_dirty_check() {
  // The render dirty-check is `self.last_goggle == Some(st)`, so any changed field must make two unequal.
  let base = GoggleStatus { lap: 3, lap_tenths: 127, pan_deg: 5, tilt_deg: -2, sats: 11, bars: 4 };
  assert_eq!(base, base);
  assert_ne!(base, GoggleStatus { lap_tenths: 128, ..base });
  assert_ne!(base, GoggleStatus { pan_deg: 6, ..base });
}

#[test]
fn truck_status_participates_in_dirty_check() {
  let base = TruckStatus { mph: 42, kmh: 67, bars: 3, rssi: -68, linked: true };
  assert_eq!(base, base);
  assert_ne!(base, TruckStatus { mph: 43, ..base });
  assert_ne!(base, TruckStatus { linked: false, ..base });
}

#[test]
fn lap_secs_participates_in_dirty_check() {
  // The dirty-check is `self.last == Some(status)`, so a changed lap_secs must make two Statuses unequal —
  // otherwise the once-per-second lap tick would never re-flush the panel. Conversely an unchanged lap_secs
  // (everything equal) must compare equal so the render is skipped.
  let base = Status { speed_cm_s: 1000, link_up: true, gps_fix: true, lap_secs: 5 };
  assert_eq!(base, base);
  assert_ne!(base, Status { lap_secs: 6, ..base });
}

/// What an operation draws, as a short description.
fn describe(op: &Op) -> String {
  match op {
    Op::Text { text, x, y, font, align } => {
      let font = match font {
        Font::Small => "small",
        Font::Big => "big",
      };
      let align = match align {
        Align::Left => "left",
        Align::Center => "center",
        Align::Right => "right",
      };
      format!("{} {} {} {} {}", text.as_str(), x, y, font, align)
    }
    Op::Rect { x, y, w, h } => format!("rect {} {} {} {}", x, y, w, h),
    Op::Dot { x, y } => format!("dot {} {}", x, y),
    Op::Arc { cx, cy, r_out, r_in, lit, segments } => {
      format!("arc {} {} {} {} {} {}", cx, cy, r_out, r_in, lit, segments)
    }
  }
}

fn describe_all(ops: &[Op]) -> Vec<String> {
  ops.iter().map(describe).collect()
}

#[test]
fn plain_layout() {
  let mut d = StatusDisplay::new();
  let status = Status { speed_cm_s: 1000, link_up: true, gps_fix: false, lap_secs: 71 };
  let ops = d.render(status).expect("the first frame is drawn");
  assert_eq!(
    describe_all(&ops),
    vec![
      "FPV HEAD TRACK 0 3 small left",
      "LINK:Y FIX:N 0 19 small left",
      "SPD: 36 km/h 0 35 small left",
      "LAP: 71s 0 51 small left",
    ]
  );
}

#[test]
fn goggle_layout() {
  let mut d = StatusDisplay::new();
  let st = GoggleStatus { lap: 3, lap_tenths: 127, pan_deg: 5, tilt_deg: -12, sats: 7, bars: 3 };
  let ops = d.render_goggle(st).expect("the first frame is drawn");
  assert_eq!(
    describe_all(&ops),
    vec![
      "HEAD-TX 2 4 small left",
      "SV07 110 4 small right",
      "rect 114 9 2 3",
      "rect 117 7 2 5",
      "rect 120 5 2 7",
      "rect 123 3 1 9",
      "dot 124 11",
      "LAP 03 2 17 small left",
      "12.7 62 26 big center",
      "s 88 36 small left",
      "rect 8 50 112 1",
      "PAN +05 8 54 small left",
      "-12 TLT 120 54 small right",
    ]
  );
}

#[test]
fn truck_layout() {
  let mut d = StatusDisplay::new();
  let st = TruckStatus { mph: 30, kmh: 48, bars: 0, rssi: -68, linked: true };
  let ops = d.render_truck(st).expect("the first frame is drawn");
  let lines = describe_all(&ops);
  assert_eq!(lines[0], "TRUCK-RX 2 4 small left");
  assert_eq!(lines[1], "-68 110 4 small right");
  assert_eq!(lines[2..4], ["rect 114 9 1 3", "dot 115 11"]);
  assert_eq!(
    lines[10..],
    ["arc 64 60 42 35 13 26", "30 64 26 big center", "MPH 64 47 small center", "48 KMH 64 55 small center"]
  );
  let down = d.render_truck(TruckStatus { linked: false, ..st }).expect("changed");
  assert_eq!(describe(&down[1]), "-- 110 4 small right");
}

#[test]
fn widest_values_are_not_cut() {
  let mut d = StatusDisplay::new();
  let ops = d.render(Status { speed_cm_s: u32::MAX, link_up: false, gps_fix: true, lap_secs: u32::MAX }).unwrap();
  assert_eq!(describe(&ops[2]), "SPD: 154618823 km/h 0 35 small left");
  assert_eq!(describe(&ops[3]), "LAP: 4294967295s 0 51 small left");
  let wide =
    GoggleStatus { lap: u32::MAX, lap_tenths: u32::MAX, pan_deg: i16::MIN, tilt_deg: i16::MAX, sats: 123, bars: 4 };
  let ops = d.render_goggle(wide).unwrap();
  let lines = describe_all(&ops);
  assert!(lines.iter().any(|l| l == "LAP 4294967295 2 17 small left"));
  assert!(lines.iter().any(|l| l == "429496729.5 62 26 big center"));
  assert!(lines.iter().any(|l| l == "PAN -32768 8 54 small left"));
  assert!(lines.iter().any(|l| l == "+32767 TLT 120 54 small right"));
  assert!(lines.iter().any(|l| l == "SV123 110 4 small right"));
}

#[test]
fn unchanged_status_is_not_redrawn() {
  let mut d = StatusDisplay::new();
  let status = Status::default();
  assert!(d.render(status).is_some());
  d.rendered(status);
  assert!(d.render(status).is_none());
  assert!(d.render(Status { lap_secs: 1, ..status }).is_some());
}

#[test]
fn failed_flush_is_drawn_again() {
  let mut d = StatusDisplay::new();
  let status = Status::default();
  d.rendered(status);
  assert!(d.render(Status { lap_secs: 1, ..status }).is_some());
  // No flush succeeded since, so neither frame is known to be on the panel.
  assert!(d.render(Status { lap_secs: 1, ..status }).is_some());
  assert!(d.render(status).is_some());
}

#[test]
fn layout_switch_always_redraws() {
  let mut d = StatusDisplay::new();
  let status = Status::default();
  let goggle = GoggleStatus::default();
  let truck = TruckStatus::default();
  d.rendered(status);
  assert!(d.render_goggle(goggle).is_some());
  d.rendered_goggle(goggle);
  assert!(d.render_goggle(goggle).is_none());
  assert!(d.render(status).is_some());
  d.rendered_truck(truck);
  assert!(d.render_truck(truck).is_none());
  assert_eq!(d.render_lines(5), vec![3, 15, 27, 39, 51]);
  assert!(d.render_truck(truck).is_some());
}

#[test]
fn arc_fills_with_speed() {
  for mph in 0..200u32 {
    let frac = (mph as f32 / 60.0).min(1.0);
    assert_eq!(lit_segments(mph), (frac * 26.0).round() as u32);
  }
}

#[test]
fn garbage_widths_do_not_print_nonsense_angles() {
  assert_eq!(pan_us_to_deg(i32::MAX), 45);
  assert_eq!(pan_us_to_deg(i32::MIN), -45);
  assert_eq!(tilt_us_to_deg(i32::MAX), 30);
  assert_eq!(tilt_us_to_deg(i32::MIN), -30);
  assert_eq!(pan_us_to_deg(1250), -22);
}

#[test]
fn panel_addresses() {
  assert_eq!(probe_address(true, true), Some(ADDR));
  assert_eq!(probe_address(false, true), Some(ADDR_ALT));
  assert_eq!(probe_address(false, false), None);
}
