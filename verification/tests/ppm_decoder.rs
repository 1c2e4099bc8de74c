use bounce_fpv::ppm_decoder::{Config, PpmDecoder, MAX_CHANNELS};

#[test]
fn decodes_a_simple_six_channel_frame() {
  let mut d = PpmDecoder::new(Config::default());
  // Six channel intervals, then a sync gap closing the frame.
  let widths = [1000u32, 1500, 2000, 1500, 1100, 1900];
  for w in widths {
    assert_eq!(d.feed(w), None);
  }
  let frame = d.feed(5_000).expect("sync gap should yield a frame");
  assert_eq!(frame.count, 6);
  assert_eq!(frame.channels[..6], [1000, 1500, 2000, 1500, 1100, 1900]);
  assert_eq!(frame.channel(4), Some(1100));
}

#[test]
fn out_of_band_interval_suppresses_the_whole_frame() {
  let mut d = PpmDecoder::new(Config::default());
  assert_eq!(d.feed(1500), None);
  assert_eq!(d.feed(100), None); //  too short — marks the frame corrupt rather than silently shifting.
  assert_eq!(d.feed(1600), None);
  // The corrupt frame is dropped at its sync gap so no shifted/wrong-axis channels are emitted.
  assert_eq!(d.feed(4_000), None);

  // The next clean frame decodes normally — the corrupt flag was cleared on the sync reset.
  assert_eq!(d.feed(1000), None);
  assert_eq!(d.feed(1500), None);
  let frame = d.feed(4_000).expect("clean frame after a corrupt one should emit");
  assert_eq!(frame.count, 2);
  assert_eq!(frame.channels[..2], [1000, 1500]);
}

#[test]
fn channel_overflow_suppresses_the_whole_frame() {
  let mut d = PpmDecoder::new(Config::default());
  // One more interval than MAX_CHANNELS slots: the overflow marks the frame corrupt, so it is dropped.
  for _ in 0..(MAX_CHANNELS + 1) {
    assert_eq!(d.feed(1500), None);
  }
  assert_eq!(d.feed(4_000), None);
}

#[test]
fn empty_sync_does_not_emit() {
  let mut d = PpmDecoder::new(Config::default());
  assert_eq!(d.feed(4_000), None); //  first sync after boot, nothing accumulated.
}

#[test]
fn measured_frames_surface_the_corrupt_ones() {
  let mut d = PpmDecoder::new(Config::default());
  d.feed_measured(1500);
  d.feed_measured(100);
  d.feed_measured(1600);
  let m = d.feed_measured(4_321).expect("a spoilt frame is surfaced");
  assert!(m.corrupt);
  assert_eq!(m.sync_gap_us, 4_321);
  assert_eq!(m.frame.count, 2);
  assert_eq!(m.frame.channels[..2], [1500, 1600]);
  assert!(d.feed_measured(4_321).is_none());
}

#[test]
fn pending_counts_and_reset_forgets() {
  let mut d = PpmDecoder::new(Config::default());
  d.feed(1500);
  d.feed(1600);
  assert_eq!(d.pending(), 2);
  d.feed(10);
  d.reset();
  assert_eq!(d.pending(), 0);
  assert_eq!(d.feed(1700), None);
  let frame = d.feed(3_000).expect("the reset also forgot the spoilt interval");
  assert_eq!(frame.channel(0), Some(1700));
  assert_eq!(frame.channel(1), None);
}

#[test]
fn band_edges_are_inside() {
  let mut d = PpmDecoder::new(Config::default());
  assert_eq!(d.feed(500), None);
  assert_eq!(d.feed(2_500), None);
  let frame = d.feed(3_000).expect("both edges are plausible");
  assert_eq!(frame.channels[..2], [500, 2500]);
  assert_eq!(d.feed(1500), None);
  assert_eq!(d.feed(2_999), None); // neither a channel nor a sync gap
  assert_eq!(d.feed(3_000), None);
}

#[test]
fn full_frame_has_sixteen_channels() {
  let mut d = PpmDecoder::new(Config::default());
  for i in 0..MAX_CHANNELS {
    assert_eq!(d.feed(1000 + i as u32), None);
  }
  let frame = d.feed(9_000).expect("sixteen channels fit");
  assert_eq!(frame.count, MAX_CHANNELS);
  assert_eq!(frame.channel(15), Some(1015));
  assert_eq!(frame.channel(16), None);
}
