use bounce_fpv::buffer::ByteBuf;
use bounce_fpv::proto::{
    read_control, read_telemetry, Control, Telemetry, CONTROL_MAX_LEN, FLAG_REHOME, TELEMETRY_MAX_LEN,
};

#[test]
fn control_wire_form() {
    // Field 1 (pan) and field 2 (tilt) as varints; a zero `flags` is not sent.
    let control = Control { pan_us: 1500, tilt_us: 2000, flags: 0 };
    let mut out = ByteBuf::new::<CONTROL_MAX_LEN>();
    control.encode(&mut out).unwrap();
    assert_eq!(out.as_slice(), &[0x08, 0xDC, 0x0B, 0x10, 0xD0, 0x0F]);
    assert_eq!(read_control(out.as_slice()), Some(control));
}

#[test]
fn control_with_flags() {
    let control = Control { pan_us: 0, tilt_us: 127, flags: FLAG_REHOME };
    let mut out = ByteBuf::new::<CONTROL_MAX_LEN>();
    control.encode(&mut out).unwrap();
    assert_eq!(out.as_slice(), &[0x10, 127, 0x18, 1]);
    assert_eq!(read_control(out.as_slice()), Some(control));
}

#[test]
fn largest_messages_fit_exactly() {
    let control = Control { pan_us: u32::MAX, tilt_us: u32::MAX, flags: u32::MAX };
    let mut out = ByteBuf::new::<CONTROL_MAX_LEN>();
    control.encode(&mut out).unwrap();
    assert_eq!(out.len(), CONTROL_MAX_LEN);
    assert_eq!(read_control(out.as_slice()), Some(control));
    let telemetry = Telemetry {
        speed_cm_s: u32::MAX,
        sats: u32::MAX,
        fix_quality: u32::MAX,
        dist_m: u32::MAX,
        bearing_deg: u32::MAX,
        nav_valid: u32::MAX,
    };
    let mut out = ByteBuf::new::<TELEMETRY_MAX_LEN>();
    telemetry.encode(&mut out).unwrap();
    assert_eq!(out.len(), TELEMETRY_MAX_LEN);
    assert_eq!(read_telemetry(out.as_slice()), Some(telemetry));
}

#[test]
fn too_small_a_buffer_is_an_error() {
    let control = Control { pan_us: 1500, tilt_us: 2000, flags: 0 };
    let mut out = ByteBuf::new::<5>();
    assert!(control.encode(&mut out).is_err());
    let mut out = ByteBuf::new::<6>();
    assert!(control.encode(&mut out).is_ok());
}

#[test]
fn default_messages_are_empty() {
    let mut out = ByteBuf::new::<TELEMETRY_MAX_LEN>();
    Telemetry::default().encode(&mut out).unwrap();
    assert!(out.is_empty());
    assert_eq!(read_telemetry(&[]), Some(Telemetry::default()));
    assert_eq!(read_control(&[]), Some(Control::default()));
}

#[test]
fn telemetry_round_trips() {
    let telemetry =
        Telemetry { speed_cm_s: 1152, sats: 8, fix_quality: 1, dist_m: 312, bearing_deg: 271, nav_valid: 1 };
    let mut out = ByteBuf::new::<TELEMETRY_MAX_LEN>();
    telemetry.encode(&mut out).unwrap();
    assert_eq!(read_telemetry(out.as_slice()), Some(telemetry));
}

#[test]
fn unknown_fields_are_skipped() {
    // Field 9 as a varint, as eight bytes, as a counted run and as four bytes, around a pan of 5.
    let bytes = [
        0x48, 0x96, 0x01, // varint
        0x49, 1, 2, 3, 4, 5, 6, 7, 8, // eight bytes
        0x08, 0x05, // pan
        0x4A, 3, 9, 9, 9, // counted
        0x4D, 1, 2, 3, 4, // four bytes
    ];
    assert_eq!(read_control(&bytes), Some(Control { pan_us: 5, tilt_us: 0, flags: 0 }));
}

#[test]
fn malformed_messages_are_refused() {
    assert_eq!(read_control(&[0x08]), None); // a tag without a value
    assert_eq!(read_control(&[0x08, 0x80]), None); // a varint that does not end
    assert_eq!(read_control(&[0x00, 0x01]), None); // field zero
    assert_eq!(read_control(&[0x4B]), None); // a group, which is no longer used
    assert_eq!(read_control(&[0x4F, 0]), None); // no such wire type
    assert_eq!(read_control(&[0x4A, 5, 1]), None); // a counted run that is cut short
    assert_eq!(read_control(&[0x49, 1, 2, 3]), None); // eight bytes cut short
    assert_eq!(read_control(&[0x08, 0xFF, 0xFF, 0xFF, 0xFF, 0xFF, 0xFF, 0xFF, 0xFF, 0xFF, 0xFF, 0x01]), None);
}

#[test]
fn long_varints_are_cut_to_32_bits() {
    // 2^32 + 7 in five bytes, and a ten-byte varint.
    assert_eq!(read_control(&[0x08, 0x87, 0x80, 0x80, 0x80, 0x10]).unwrap().pan_us, 7);
    assert_eq!(read_control(&[0x08, 0x87, 0x80, 0x80, 0x80, 0x80, 0x80, 0x80, 0x80, 0x80, 0x01]).unwrap().pan_us, 7);
    assert_eq!(read_control(&[0x08, 0xFF, 0xFF, 0xFF, 0xFF, 0x7F]).unwrap().pan_us, u32::MAX);
}

#[test]
fn decoding_merges_into_the_message() {
    let mut control = Control { pan_us: 1, tilt_us: 2, flags: 3 };
    control.decode_from_bytes(&[0x10, 9]).unwrap();
    assert_eq!(control, Control { pan_us: 1, tilt_us: 9, flags: 3 });
    assert!(control.decode_from_bytes(&[0x08]).is_err());
    assert_eq!(control, Control { pan_us: 1, tilt_us: 9, flags: 3 });
    let mut telemetry = Telemetry::default();
    telemetry.decode_from_bytes(&[0x30, 1, 0x30, 2]).unwrap();
    assert_eq!(telemetry.nav_valid, 2); // the last one sent wins
}
