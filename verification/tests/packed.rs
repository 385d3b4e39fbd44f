use std::collections::VecDeque;

use bevy_oozlum::frame::RevFrame;
use bevy_oozlum::log::{
    LogMut, LoggedAt, PackedI16, PackedI24, PackedI32, PackedI40, PackedI48, PackedI56, PackedI64, PackedRevFrame, PackedU16, PackedU24, PackedU32, PackedU40, PackedU48, PackedU56, PackedUSize,
    ToPackedErr, ValueLoggedAt,
};

#[test]
fn packed_uint_roundtrip() {
    assert_eq!(PackedU16::try_from_usize(0xbeef).map(PackedU16::into_usize), Ok(0xbeef));
    assert_eq!(PackedU16::try_from_usize(0x1_0000), Err(0x1_0000));
    assert_eq!(PackedU24::try_from_usize(16_777_215).map(PackedU24::into_usize), Ok(16_777_215));
    assert_eq!(PackedU24::try_from_usize(16_777_216), Err(16_777_216));
    assert_eq!(PackedU32::try_from_usize(0xdead_beef).map(PackedU32::into_usize), Ok(0xdead_beef));
    assert_eq!(PackedU40::try_from_usize(1_099_511_627_775).map(PackedU40::into_usize), Ok(1_099_511_627_775));
    assert_eq!(PackedU40::try_from_usize(1_099_511_627_776), Err(1_099_511_627_776));
    assert_eq!(PackedU48::try_from_usize(0xffff_ffff_ffff).map(PackedU48::into_usize), Ok(0xffff_ffff_ffff));
    assert_eq!(PackedU56::try_from_usize(0x00ff_ffff_ffff_ffff).map(PackedU56::into_usize), Ok(0x00ff_ffff_ffff_ffff));
    assert_eq!(PackedU56::try_from_usize(0x0100_0000_0000_0000), Err(0x0100_0000_0000_0000));
    assert_eq!(PackedUSize::from_usize(usize::MAX).into_usize(), usize::MAX);
    assert_eq!(PackedU16::default().into_usize(), 0);
}

#[test]
fn packed_frames_and_logged_at() {
    let packed = PackedRevFrame::from_frame(RevFrame(123_456_789));
    assert_eq!(packed.to_frame(), RevFrame(123_456_789));
    assert_eq!(packed.logged_at(), RevFrame(123_456_789));
    assert_eq!(RevFrame(7).logged_at(), RevFrame(7));
    assert_eq!(('x', RevFrame(9)).logged_at(), RevFrame(9));
    assert_eq!(ValueLoggedAt { value: 'y', logged_at: 11 }.logged_at(), RevFrame(11));
    assert_eq!(PackedRevFrame::from_frame(RevFrame(u64::MAX)).to_frame(), RevFrame(u64::MAX));
}

#[test]
fn log_mut_only_adds() {
    let mut deque: VecDeque<u8> = VecDeque::from(vec![1]);
    {
        let mut handle = LogMut::new(&mut deque);
        handle.push_back(2);
        let mut more: VecDeque<u8> = VecDeque::from(vec![3, 4]);
        handle.append(&mut more);
        assert!(more.is_empty());
        handle.reserve(4);
        handle.reserve_exact(1);
        assert!(handle.try_reserve(1).is_ok());
        assert!(handle.try_reserve_exact(1).is_ok());
        handle.shrink_to(0);
        handle.shrink_to_fit();
    }
    assert_eq!(deque, VecDeque::from(vec![1, 2, 3, 4]));
}

#[test]
fn packed_signed_round_trip() {
    for value in [i16::MIN, -32767, -256, -1, 0, 1, 255, 256, i16::MAX] {
        assert_eq!(PackedI16::from_i16(value).into_i16(), value);
    }
    for value in [i32::MIN, -65536, -1, 0, 1, 65536, i32::MAX] {
        assert_eq!(PackedI32::from_i32(value).into_i32(), value);
    }
    for value in [i64::MIN, -(1 << 40), -1, 0, 1, 1 << 40, i64::MAX] {
        assert_eq!(PackedI64::from_i64(value).into_i64(), value);
    }
    // the two's complement bytes differ for every value
    assert_ne!(PackedI16::from_i16(-1), PackedI16::from_i16(1));
    assert_eq!(PackedI16::default().into_i16(), 0);
}

#[test]
fn packed_reduced_signed_ranges() {
    for value in [-(1 << 23), -1, 0, 1, (1 << 23) - 1] {
        assert_eq!(PackedI24::try_from_i64(value).map(PackedI24::into_i64), Ok(value));
    }
    assert_eq!(
        PackedI24::try_from_i64(1 << 23),
        Err(ToPackedErr { value_out_of_range: 1 << 23, range: (-(1 << 23), (1 << 23) - 1) })
    );
    assert!(PackedI24::try_from_i64(-(1 << 23) - 1).is_err());
    for value in [-(1 << 39), -2, 2, (1 << 39) - 1] {
        assert_eq!(PackedI40::try_from_i64(value).map(PackedI40::into_i64), Ok(value));
    }
    assert!(PackedI40::try_from_i64(1 << 39).is_err());
    for value in [-(1 << 47), -3, 3, (1 << 47) - 1] {
        assert_eq!(PackedI48::try_from_i64(value).map(PackedI48::into_i64), Ok(value));
    }
    assert!(PackedI48::try_from_i64(-(1 << 47) - 1).is_err());
    for value in [-(1 << 55), -4, 4, (1 << 55) - 1] {
        assert_eq!(PackedI56::try_from_i64(value).map(PackedI56::into_i64), Ok(value));
    }
    assert!(PackedI56::try_from_i64(1 << 55).is_err());
}
