use bounce_fpv::buffer::ByteBuf;
use bounce_fpv::link_id::{crc16, deframe, fmix64, fnv1a, frame, Binding, FNV_OFFSET_BASIS, FRAME_OVERHEAD};

fn a() -> Binding {
    bounce_fpv::link_id::derive("pair-a")
}

fn b() -> Binding {
    bounce_fpv::link_id::derive("pair-b")
}

#[test]
fn distinct_phrases_differ() {
    // Different phrases must yield a different identity on every derived field, or pairs would crosstalk.
    assert_ne!(a().uid, b().uid);
    assert_ne!(a().link_id, b().link_id);
    assert_ne!(a().crc_init, b().crc_init);
}

#[test]
fn same_phrase_is_stable() {
    assert_eq!(bounce_fpv::link_id::derive("pair-a"), a());
}

#[test]
fn round_trips_same_binding() {
    let payload = [0x08, 0xDC, 0x0B, 0x10, 0xD0, 0x0F];
    let mut framed = ByteBuf::new::<32>();
    frame(&a(), &payload, &mut framed).unwrap();
    assert_eq!(framed.len(), payload.len() + FRAME_OVERHEAD);
    assert_eq!(deframe(&a(), framed.as_slice()), Some(&payload[..]));
}

#[test]
fn rejects_foreign_binding() {
    let payload = [1, 2, 3, 4];
    let mut framed = ByteBuf::new::<32>();
    frame(&a(), &payload, &mut framed).unwrap();
    // A frame built for pair A must not deframe under pair B's binding.
    assert_eq!(deframe(&b(), framed.as_slice()), None);
}

#[test]
fn rejects_corruption() {
    let payload = [9, 9, 9];
    let mut framed = ByteBuf::new::<32>();
    frame(&a(), &payload, &mut framed).unwrap();
    let mut bad = framed.as_slice().to_vec();
    let last = bad.len() - 3; // flip a payload byte; the CRC must catch it
    bad[last] ^= 0xFF;
    assert_eq!(deframe(&a(), &bad), None);
}

#[test]
fn empty_payload_still_frames() {
    // A zero-length payload (all-default Telemetry) still produces a non-empty, valid frame.
    let mut framed = ByteBuf::new::<8>();
    frame(&a(), &[], &mut framed).unwrap();
    assert_eq!(framed.len(), FRAME_OVERHEAD);
    assert_eq!(deframe(&a(), framed.as_slice()), Some(&[][..]));
}

#[test]
fn frame_overflow_errs() {
    let mut tiny = ByteBuf::new::<4>();
    // 2 payload + 4 overhead = 6 > capacity 4: an error, not a panic.
    assert!(frame(&a(), &[1, 2], &mut tiny).is_err());
    // The link-id and the payload fitted, the CRC did not.
    assert_eq!(tiny.as_slice(), &[a().link_id[0], a().link_id[1], 1, 2]);
}

#[test]
fn frame_overflow_keeps_whole_parts_only() {
    let mut none = ByteBuf::new::<1>();
    assert!(frame(&a(), &[1, 2], &mut none).is_err());
    assert!(none.is_empty());
    let mut id_only = ByteBuf::new::<3>();
    assert!(frame(&a(), &[1, 2], &mut id_only).is_err());
    assert_eq!(id_only.as_slice(), &a().link_id[..]);
}

#[test]
fn framing_clears_the_buffer_first() {
    let mut out = ByteBuf::new::<16>();
    out.extend_from_slice(&[7, 7, 7]).unwrap();
    frame(&a(), &[5], &mut out).unwrap();
    assert_eq!(deframe(&a(), out.as_slice()), Some(&[5u8][..]));
}

#[test]
fn every_damaged_byte_is_caught() {
    let payload = [0x08, 0xDC, 0x0B];
    let mut framed = ByteBuf::new::<32>();
    frame(&a(), &payload, &mut framed).unwrap();
    for i in 0..framed.len() {
        for bit in 0..8 {
            let mut bad = framed.as_slice().to_vec();
            bad[i] ^= 1 << bit;
            assert_eq!(deframe(&a(), &bad), None);
        }
    }
}

#[test]
fn same_link_id_with_another_crc_init_is_foreign() {
    let other = Binding { crc_init: a().crc_init ^ 1, ..a() };
    let mut framed = ByteBuf::new::<32>();
    frame(&a(), &[1, 2, 3], &mut framed).unwrap();
    assert_eq!(deframe(&other, framed.as_slice()), None);
}

#[test]
fn short_frames_are_dropped() {
    assert_eq!(deframe(&a(), &[]), None);
    assert_eq!(deframe(&a(), &[a().link_id[0], a().link_id[1], 0]), None);
}

#[test]
fn crc16_known_values() {
    // CRC-16/CCITT-FALSE and XMODEM check values for "123456789".
    assert_eq!(crc16(0xFFFF, b"123456789"), 0x29B1);
    assert_eq!(crc16(0x0000, b"123456789"), 0x31C3);
    assert_eq!(crc16(0x1234, b""), 0x1234);
}

#[test]
fn hash_known_values() {
    // Published FNV-1a 64-bit values.
    assert_eq!(fnv1a(b"", FNV_OFFSET_BASIS), 0xcbf2_9ce4_8422_2325);
    assert_eq!(fnv1a(b"a", FNV_OFFSET_BASIS), 0xaf63_dc4c_8601_ec8c);
    assert_eq!(fnv1a(b"foobar", FNV_OFFSET_BASIS), 0x8594_4171_f739_67e8);
    assert_eq!(fmix64(0), 0);
    assert_eq!(fmix64(1), 0xb456_bcfc_34c2_cb2c);
}

#[test]
fn binding_is_cut_from_the_uid() {
    let binding = bounce_fpv::link_id::derive("pair-a");
    assert_eq!(binding.link_id, [binding.uid[0], binding.uid[1]]);
    assert_eq!(binding.crc_init, u16::from_be_bytes([binding.uid[4], binding.uid[5]]));
}

#[test]
fn byte_buffer_holds_what_fits() {
    let mut buf = ByteBuf::new::<3>();
    assert!(buf.is_empty());
    assert_eq!(buf.push(1), Ok(()));
    assert_eq!(buf.extend_from_slice(&[2, 3, 4]), Err(()));
    assert_eq!(buf.as_slice(), &[1]);
    assert_eq!(buf.extend_from_slice(&[2, 3]), Ok(()));
    assert_eq!(buf.push(9), Err(9));
    assert_eq!(buf.as_slice(), &[1, 2, 3]);
    buf.clear();
    assert_eq!(buf.len(), 0);
}
