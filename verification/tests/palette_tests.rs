use doom_fire::error::FireError;
use doom_fire::palette::map_intensity;

#[test]
fn hottest_intensity_is_opaque_white() {
    assert_eq!(map_intensity(36), Ok((0xFF, 0xFF, 0xFF, 255)));
}

#[test]
fn coldest_intensity_is_transparent_near_black() {
    assert_eq!(map_intensity(0), Ok((0x07, 0x07, 0x07, 0)));
}

#[test]
fn out_of_range_intensity_rejected() {
    assert_eq!(map_intensity(37), Err(FireError::OutOfRange));
    assert_eq!(map_intensity(255), Err(FireError::OutOfRange));
}

#[test]
fn mapping_is_deterministic() {
    for i in 0..=36u8 {
        let first = map_intensity(i).unwrap();
        let second = map_intensity(i).unwrap();
        assert_eq!(first, second);
    }
}

#[test]
fn alpha_is_zero_exactly_when_all_channels_dark() {
    for i in 0..=36u8 {
        let (r, g, b, a) = map_intensity(i).unwrap();
        let dark = r <= 0x07 && g <= 0x07 && b <= 0x07;
        assert_eq!(a == 0, dark);
        assert!(a == 0 || a == 255);
    }
    // Only the coldest level is dark enough to be transparent in this ramp.
    for i in 1..=36u8 {
        let (_, _, _, a) = map_intensity(i).unwrap();
        assert_eq!(a, 255);
    }
}

#[test]
fn sample_mid_ramp_color() {
    assert_eq!(map_intensity(6), Ok((0x77, 0x1F, 0x07, 255)));
}
