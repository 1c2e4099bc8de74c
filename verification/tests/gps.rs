use bounce_fpv::gps::{
  field, fold_digits_i64, hex_nibble, milli_kmh_to_cm_s, milliknots_to_cm_s, parse_coord_e7, parse_decimal_milli,
  parse_line, parse_uint, validate_and_body, GpsReader, Parsed, MAX_SENTENCE_LEN, MAX_SPEED_CM_S, READ_CHUNK,
};

#[test]
fn rmc_speed_in_knots_to_cm_s() {
  // Standard GPRMC; field 7 (speed) = 22.4 knots. 22.4 kn * 51.4444 = 1152.35 cm/s -> 1152.
  let line = b"$GPRMC,123519,A,4807.038,N,01131.000,E,022.4,084.4,230394,003.1,W*6A";
  match parse_line(line) {
    Parsed::Speed { speed_cm_s, lat_e7, lon_e7 } => {
      assert_eq!(speed_cm_s, milliknots_to_cm_s(22_400));
      // RMC status is 'A', so it carries its own position alongside the speed (48° 07.038' N, 11° 31.000' E).
      assert_eq!(lat_e7, Some(481_173_000));
      assert_eq!(lon_e7, Some(115_166_667));
    }
    other => panic!("expected Speed, got {:?}", other),
  }
  assert_eq!(milliknots_to_cm_s(22_400), 1152);
}

#[test]
fn vtg_speed_in_kmh_to_cm_s() {
  // GPVTG field 7 = 10.0 km/h -> 277 cm/s. Checksum computed over the body.
  let body = b"GPVTG,054.7,T,034.4,M,005.5,N,010.0,K";
  let cksum = body.iter().fold(0u8, |a, &b| a ^ b);
  let mut line: heapless::Vec<u8, 96> = heapless::Vec::new();
  line.push(b'$').unwrap();
  line.extend_from_slice(body).unwrap();
  line.push(b'*').unwrap();
  let hex = b"0123456789ABCDEF";
  line.push(hex[(cksum >> 4) as usize]).unwrap();
  line.push(hex[(cksum & 0xF) as usize]).unwrap();
  match parse_line(&line) {
    Parsed::Speed { speed_cm_s, lat_e7, lon_e7 } => {
      assert_eq!(speed_cm_s, milli_kmh_to_cm_s(10_000));
      assert_eq!((lat_e7, lon_e7), (None, None)); //  VTG carries no position.
    }
    other => panic!("expected Speed, got {:?}", other),
  }
  assert_eq!(milli_kmh_to_cm_s(10_000), 278); //  10 km/h = 277.78 cm/s, rounded.
}

#[test]
fn bad_checksum_is_rejected() {
  let line = b"$GPRMC,123519,A,4807.038,N,01131.000,E,022.4,084.4,230394,003.1,W*00";
  assert_eq!(parse_line(line), Parsed::Nothing);
}

#[test]
fn gga_yields_fix_status() {
  let line = b"$GPGGA,123519,4807.038,N,01131.000,E,1,08,0.9,545.4,M,46.9,M,,*47";
  match parse_line(line) {
    Parsed::Status { satellites, fix, lat_e7, lon_e7 } => {
      assert_eq!(satellites, Some(8));
      assert!(fix.has_fix());
      assert_eq!(fix.raw, 1);
      assert_eq!(lat_e7, Some(481_173_000)); //  48° 07.038' N.
      assert_eq!(lon_e7, Some(115_166_667)); //  11° 31.000' E.
    }
    other => panic!("expected Status, got {:?}", other),
  }
}

#[test]
fn southern_western_hemispheres_negate() {
  // Same magnitudes as the canonical fixture, but S/W must flip the sign.
  assert_eq!(parse_coord_e7(b"4807.038", b"S"), Some(-481_173_000));
  assert_eq!(parse_coord_e7(b"01131.000", b"W"), Some(-115_166_667));
}

#[test]
fn longitude_three_degree_digits_and_range_bound() {
  // Longitude has three degree digits; the positional split must still take the last two as whole minutes.
  assert_eq!(parse_coord_e7(b"01131.000", b"E"), Some(115_166_667));
  // 180° 00.000' is the longitude upper bound (valid); past it the result is rejected rather than overflowing.
  assert_eq!(parse_coord_e7(b"18000.000", b"E"), Some(1_800_000_000));
  assert_eq!(parse_coord_e7(b"18100.000", b"E"), None);
}

#[test]
fn latitude_bounded_to_90_degrees() {
  // Latitude caps at 90° (a tighter bound than longitude's 180°): 90°00.000' is valid, 90°01' is rejected as
  // an impossible/corrupt coordinate rather than passing the generic 180° check.
  assert_eq!(parse_coord_e7(b"9000.000", b"N"), Some(900_000_000));
  assert_eq!(parse_coord_e7(b"9001.000", b"N"), None);
  assert_eq!(parse_coord_e7(b"9000.000", b"S"), Some(-900_000_000));
}

#[test]
fn malformed_coords_rejected() {
  assert_eq!(parse_coord_e7(b"4860.000", b"N"), None); //  minutes >= 60.
  assert_eq!(parse_coord_e7(b"4807.038", b""), None); //  missing hemisphere.
  assert_eq!(parse_coord_e7(b"4807.038", b"X"), None); //  unknown hemisphere.
  assert_eq!(parse_coord_e7(b"480.0", b"N"), None); //  fewer than four integer digits.
  assert_eq!(parse_coord_e7(b"48a7.038", b"N"), None); //  non-digit byte.
}

#[test]
fn gga_before_fix_has_no_coords() {
  // Quality 0, empty lat/lon fields — a fix-status update with no position. Status returns, coords are None.
  let body: &[u8] = b"GPGGA,123519,,,,,0,00,,,,,,,";
  let line = framed(body);
  match parse_line(&line) {
    Parsed::Status { fix, lat_e7, lon_e7, .. } => {
      assert!(!fix.has_fix());
      assert_eq!((lat_e7, lon_e7), (None, None));
    }
    other => panic!("expected Status, got {:?}", other),
  }
}

#[test]
fn rmc_void_status_drops_position() {
  // A void ('V') RMC may still carry coordinate digits, but they are unreliable before a fix — drop them while
  // still returning the (zero) speed so the reader does not stall.
  let body: &[u8] = b"GPRMC,123519,V,4807.038,N,01131.000,E,000.0,084.4,230394,003.1,W";
  let line = framed(body);
  match parse_line(&line) {
    Parsed::Speed { lat_e7, lon_e7, .. } => assert_eq!((lat_e7, lon_e7), (None, None)),
    other => panic!("expected Speed, got {:?}", other),
  }
}

#[test]
fn empty_speed_field_before_fix_is_none() {
  // RMC with status 'V' (void) and an empty speed field — common before a fix.
  let line = b"$GPRMC,,V,,,,,,,,,,N*53";
  assert_eq!(parse_line(line), Parsed::Nothing);
}

#[test]
fn enormous_speed_field_is_clamped_not_overflowed() {
  // A checksum-valid but corrupt huge speed (4,000,000 knots ~= 205M cm/s) must clamp at
  // MAX_SPEED_CM_S, never propagate an overflow-prone value into the downstream `* 36` km/h math.
  let body: &[u8] = b"GPRMC,123519,A,4807.038,N,01131.000,E,4000000.0,084.4,230394,003.1,W";
  let line = framed(body);
  match parse_line(&line) {
    Parsed::Speed { speed_cm_s, .. } => {
      assert_eq!(speed_cm_s, MAX_SPEED_CM_S);
      assert!(speed_cm_s.checked_mul(36).is_some()); //  the downstream km/h math stays within u32.
    }
    other => panic!("expected clamped Speed, got {:?}", other),
  }
}

#[test]
fn three_digit_sats_and_huge_quality_saturate_not_wrap() {
  // 300 sats must not wrap to 44, and quality 300 must not wrap to 0 ('no fix').
  let body: &[u8] = b"GPGGA,123519,4807.038,N,01131.000,E,300,300,0.9,545.4,M,46.9,M,,";
  let line = framed(body);
  match parse_line(&line) {
    Parsed::Status { satellites, fix, .. } => {
      assert_eq!(satellites, Some(u8::MAX));
      assert_eq!(fix.raw, u8::MAX);
      assert!(fix.has_fix());
    }
    other => panic!("expected saturated Status, got {:?}", other),
  }
}

#[test]
fn vtg_falls_back_to_knots_when_kmh_blank() {
  // Field 7 (km/h) blank but field 5 (knots) = 005.5 — speed must come from the knots field.
  let body: &[u8] = b"GPVTG,054.7,T,034.4,M,005.5,N,,K";
  let line = framed(body);
  match parse_line(&line) {
    Parsed::Speed { speed_cm_s, .. } => assert_eq!(speed_cm_s, milliknots_to_cm_s(5_500)),
    other => panic!("expected Speed from knots fallback, got {:?}", other),
  }
}

/// Builds a `$<body>*HH` framed NMEA line with a correct checksum, into a heapless buffer.
fn framed(body: &[u8]) -> heapless::Vec<u8, MAX_SENTENCE_LEN> {
  let cksum = body.iter().fold(0u8, |a, &b| a ^ b);
  let hex = b"0123456789ABCDEF";
  let mut line: heapless::Vec<u8, MAX_SENTENCE_LEN> = heapless::Vec::new();
  line.push(b'$').unwrap();
  line.extend_from_slice(body).unwrap();
  line.push(b'*').unwrap();
  line.push(hex[(cksum >> 4) as usize]).unwrap();
  line.push(hex[(cksum & 0xF) as usize]).unwrap();
  line
}

/// A receiver that serves a fixed script from a cursor, filling each read fully, then goes quiet.
struct ScriptReader {
  data: &'static [u8],
  pos: usize,
}

impl ScriptReader {
  fn read(&mut self, buf: &mut [u8]) -> usize {
    let n = (self.data.len() - self.pos).min(buf.len());
    buf[..n].copy_from_slice(&self.data[self.pos..self.pos + n]);
    self.pos += n;
    n
  }
}

/// Reads until a fix completes.
fn next_fix(reader: &mut GpsReader, uart: &mut ScriptReader) -> bounce_fpv::gps::GpsFix {
  loop {
    if reader.needs_refill() {
      let mut chunk = [0u8; READ_CHUNK];
      let n = uart.read(&mut chunk);
      reader.refill(&chunk[..n]);
    }
    if let Some(fix) = reader.next_fix() {
      return fix;
    }
  }
}

#[test]
fn rmc_then_gga_in_one_chunk_does_not_drop_the_gga() {
  // RMC completes mid-chunk and returns the speed; the GGA that followed it in the SAME read must survive so
  // its sats/fix are observed on the next call instead of being overwritten by a fresh read.
  static SCRIPT: &[u8] = b"$GPRMC,123519,A,4807.038,N,01131.000,E,022.4,084.4,230394,003.1,W*6A\r\n\
$GPGGA,123519,4807.038,N,01131.000,E,1,08,0.9,545.4,M,46.9,M,,*47\r\n\
$GPVTG,054.7,T,034.4,M,005.5,N,010.0,K*4A\r\n";
  let mut uart = ScriptReader { data: SCRIPT, pos: 0 };
  let mut reader = GpsReader::new();

  // First fix is the RMC speed. The GGA had not been parsed yet, so sats/fix are still None here — but the
  // RMC carries its OWN position (status 'A'), so the location is present and atomic with the speed.
  let first = next_fix(&mut reader, &mut uart);
  assert_eq!(first.speed_cm_s, milliknots_to_cm_s(22_400));
  assert_eq!(first.satellites, None);
  assert_eq!(first.lat_e7, Some(481_173_000));

  // Second fix resumes from the buffered tail: the GGA is parsed (updating cached status + position) and the
  // trailing VTG returns its speed — now carrying the satellites/fix AND the cached position the GGA supplied,
  // proving the GGA was not lost (the VTG itself has no coordinates).
  let second = next_fix(&mut reader, &mut uart);
  assert_eq!(second.speed_cm_s, milli_kmh_to_cm_s(10_000));
  assert_eq!(second.satellites, Some(8));
  assert_eq!(second.fix.map(|f| f.raw), Some(1));
  assert_eq!(second.lat_e7, Some(481_173_000));
  assert_eq!(second.lon_e7, Some(115_166_667));
}

#[test]
fn overlong_line_is_discarded_whole() {
  // The tail of an overlong line looks like a sentence of its own, but belongs to the dropped one.
  let mut stream: Vec<u8> = Vec::new();
  stream.extend(std::iter::repeat(b'x').take(MAX_SENTENCE_LEN + 1));
  stream.extend_from_slice(b"$GPVTG,054.7,T,034.4,M,005.5,N,010.0,K*4A\r\n");
  let mut reader = GpsReader::new();
  for chunk in stream.chunks(READ_CHUNK) {
    reader.refill(chunk);
    assert_eq!(reader.next_fix(), None);
    assert!(reader.needs_refill());
  }
  // The next line is read again.
  reader.refill(b"$GPVTG,054.7,T,034.4,M,005.5,N,010.0,K*4A\r\n");
  assert_eq!(reader.next_fix().map(|f| f.speed_cm_s), Some(278));
}

#[test]
fn longest_line_is_kept() {
  // A line of exactly the buffer's size is still parsed; the sentence starts at the `$`.
  let sentence = b"$GPVTG,054.7,T,034.4,M,005.5,N,010.0,K*4A";
  let mut stream: Vec<u8> = vec![b' '; MAX_SENTENCE_LEN - sentence.len()];
  stream.extend_from_slice(sentence);
  assert_eq!(stream.len(), MAX_SENTENCE_LEN);
  stream.push(b'\n');
  let mut reader = GpsReader::new();
  let mut fixes = Vec::new();
  for chunk in stream.chunks(READ_CHUNK) {
    reader.refill(chunk);
    while let Some(fix) = reader.next_fix() {
      fixes.push(fix.speed_cm_s);
    }
  }
  assert_eq!(fixes, vec![278]);
}

#[test]
fn chunk_boundaries_do_not_matter() {
  let script: &[u8] = b"$GPGGA,123519,4807.038,N,01131.000,E,1,08,0.9,545.4,M,46.9,M,,*47\r\n\
$GPRMC,123519,A,4807.038,N,01131.000,E,022.4,084.4,230394,003.1,W*6A\r\n\
$GPVTG,054.7,T,034.4,M,005.5,N,010.0,K*4A\r\n";
  let mut seen: Vec<Vec<(u32, Option<u8>)>> = Vec::new();
  for size in [1usize, 7, 64] {
    let mut reader = GpsReader::new();
    let mut fixes = Vec::new();
    for chunk in script.chunks(size) {
      reader.refill(chunk);
      while let Some(fix) = reader.next_fix() {
        fixes.push((fix.speed_cm_s, fix.satellites));
      }
    }
    seen.push(fixes);
  }
  assert_eq!(seen[0], vec![(1152, Some(8)), (278, Some(8))]);
  assert_eq!(seen[0], seen[1]);
  assert_eq!(seen[0], seen[2]);
}

#[test]
fn absurdly_long_degrees_are_out_of_range() {
  assert_eq!(parse_coord_e7(b"99999999999999999999999907.038", b"N"), None);
  assert_eq!(parse_coord_e7(b"92233720368547758070.0", b"E"), None);
}

#[test]
fn fields_numbers_and_framing() {
  assert_eq!(field(b"A,,C", 0), Some(&b"A"[..]));
  assert_eq!(field(b"A,,C", 1), None);
  assert_eq!(field(b"A,,C", 2), Some(&b"C"[..]));
  assert_eq!(field(b"A,,C", 3), None);
  assert_eq!(fold_digits_i64(b""), Some(0));
  assert_eq!(fold_digits_i64(b"0123"), Some(123));
  assert_eq!(fold_digits_i64(b"1x"), None);
  assert_eq!(hex_nibble(b'a'), Some(10));
  assert_eq!(hex_nibble(b'F'), Some(15));
  assert_eq!(hex_nibble(b'g'), None);
  assert_eq!(parse_decimal_milli(b"12.34"), Some(12_340));
  assert_eq!(parse_decimal_milli(b"12.3456"), Some(12_345));
  assert_eq!(parse_decimal_milli(b".5"), Some(500));
  assert_eq!(parse_decimal_milli(b"5."), Some(5_000));
  assert_eq!(parse_decimal_milli(b"."), None);
  assert_eq!(parse_decimal_milli(b"1.2.3"), None);
  assert_eq!(parse_decimal_milli(b"4294967.295"), Some(u32::MAX));
  assert_eq!(parse_decimal_milli(b"4294967.296"), None);
  assert_eq!(parse_uint(b"4294967295"), Some(u32::MAX));
  assert_eq!(parse_uint(b"4294967296"), None);
  assert_eq!(parse_uint(b""), None);
  assert_eq!(validate_and_body(b"junk$GP,1\r\n"), Some(&b"GP,1"[..]));
  assert_eq!(validate_and_body(b"!AI*08"), Some(&b"AI"[..]));
  assert_eq!(validate_and_body(b"$AI*0"), None);
  assert_eq!(validate_and_body(b"no start"), None);
}

#[test]
fn default_fix_is_empty() {
  let fix = bounce_fpv::gps::GpsFix::default();
  assert_eq!(fix.speed_cm_s, 0);
  assert_eq!((fix.satellites, fix.fix, fix.lat_e7, fix.lon_e7), (None, None, None, None));
}

#[test]
fn longitude_misfed_as_latitude_is_rejected() {
  assert_eq!(parse_coord_e7(b"01131.000", b"N"), None);
  assert_eq!(parse_coord_e7(b"01131.000", b"S"), None);
  assert_eq!(parse_coord_e7(b"01131.000", b"E"), Some(115_166_667));
  assert_eq!(parse_coord_e7(b"1131.000", b"N"), Some(115_166_667));
}
