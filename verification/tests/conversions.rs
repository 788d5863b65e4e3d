use sampara::interpolate::SincCursor;
use sampara::window::{Point, Points};
use sampara::{FromSample, IntoSample, SignedSample};

#[test]
fn signed_samples_widen_by_a_power_of_two() {
    assert_eq!(<i16 as FromSample<i8>>::from_sample(1), 256);
    assert_eq!(<i16 as FromSample<i8>>::from_sample(-128), i16::MIN);
    assert_eq!(<i16 as FromSample<i8>>::from_sample(127), 0x7f00);
    assert_eq!(<i128 as FromSample<i8>>::from_sample(-128), i128::MIN);
    assert_eq!(<i128 as FromSample<i8>>::from_sample(1), 1 << 120);
    assert_eq!(<i64 as FromSample<i64>>::from_sample(-77), -77);
}

#[test]
fn signed_samples_narrow_rounding_down() {
    assert_eq!(<i8 as FromSample<i16>>::from_sample(256), 1);
    assert_eq!(<i8 as FromSample<i16>>::from_sample(255), 0);
    assert_eq!(<i8 as FromSample<i16>>::from_sample(-1), -1);
    assert_eq!(<i8 as FromSample<i16>>::from_sample(-256), -1);
    assert_eq!(<i8 as FromSample<i16>>::from_sample(-257), -2);
    assert_eq!(<i8 as FromSample<i128>>::from_sample(i128::MIN), -128);
    assert_eq!(<i8 as FromSample<i128>>::from_sample(i128::MAX), 127);
}

#[test]
fn conversions_match_shifts_for_every_sample() {
    for s in i16::MIN..=i16::MAX {
        assert_eq!(<i8 as FromSample<i16>>::from_sample(s), (s >> 8) as i8);
        assert_eq!(<i32 as FromSample<i16>>::from_sample(s), (s as i32) << 16);
        let narrowed = (s >> 8) as i8;
        let expected = if narrowed < 0 {
            (narrowed + i8::MAX + 1) as u8
        } else {
            (narrowed as u8) + (i8::MAX as u8) + 1
        };
        assert_eq!(<u8 as FromSample<i16>>::from_sample(s), expected);
        let expected = if s < 0 {
            ((s + i16::MAX + 1) as u32) << 16
        } else {
            ((s as u32) + (i16::MAX as u32) + 1) << 16
        };
        assert_eq!(<u32 as FromSample<i16>>::from_sample(s), expected);
    }
    for s in u16::MIN..=u16::MAX {
        assert_eq!(<u8 as FromSample<u16>>::from_sample(s), (s >> 8) as u8);
        assert_eq!(<u64 as FromSample<u16>>::from_sample(s), (s as u64) << 48);
        let expected = if s < 0x8000 { (s as i16) - i16::MAX - 1 } else { (s - 0x8000) as i16 };
        assert_eq!(<i16 as FromSample<u16>>::from_sample(s), expected);
        assert_eq!(<i32 as FromSample<u16>>::from_sample(s), ((s as i32) - 0x8000) << 16);
        let narrowed = (s >> 8) as u8;
        let expected = if narrowed < 0x80 {
            (narrowed as i8) - i8::MAX - 1
        } else {
            (narrowed - 0x80) as i8
        };
        assert_eq!(<i8 as FromSample<u16>>::from_sample(s), expected);
    }
}

#[test]
fn equilibrium_is_kept() {
    assert_eq!(<u8 as FromSample<i8>>::from_sample(0), 128);
    assert_eq!(<i8 as FromSample<u8>>::from_sample(128), 0);
    assert_eq!(<u128 as FromSample<i8>>::from_sample(0), 1 << 127);
    assert_eq!(<i128 as FromSample<u128>>::from_sample(1 << 127), 0);
    assert_eq!(<i128 as FromSample<u128>>::from_sample(0), i128::MIN);
    assert_eq!(<i128 as FromSample<u128>>::from_sample(u128::MAX), i128::MAX);
    assert_eq!(<u128 as FromSample<i128>>::from_sample(i128::MIN), 0);
    assert_eq!(<u128 as FromSample<i128>>::from_sample(-1), (1 << 127) - 1);
    assert_eq!(<u128 as FromSample<i128>>::from_sample(i128::MAX), u128::MAX);
    assert_eq!(<u16 as FromSample<u64>>::from_sample(u64::MAX), u16::MAX);
}

#[test]
fn into_sample_is_from_sample_turned_round() {
    let s: i8 = 0x4000i16.into_sample();
    assert_eq!(s, 0x40);
    let s: u8 = 0i32.into_sample();
    assert_eq!(s, 128);
    let s: i32 = 255u8.into_sample();
    assert_eq!(s, 0x7f00_0000);
}

#[test]
fn amplitudes_add_and_subtract() {
    assert_eq!(192i16.add_amp(-128), 64);
    assert_eq!(192i16.sub_amp(-128), 320);
    assert_eq!((-100i8).add_amp(-28), -128);
    assert_eq!(i128::MAX.sub_amp(i128::MAX), 0);
}

#[test]
fn symmetric_window_points_span_the_interval() {
    let mut points = Points::<true>::new(4);
    assert_eq!(points.len(), 4);
    assert_eq!(points.next(), Some(Point::At { index: 0, bins: 3 }));
    assert_eq!(points.next_back(), Some(Point::At { index: 3, bins: 3 }));
    assert_eq!(points.len(), 2);
    assert_eq!(points.next(), Some(Point::At { index: 1, bins: 3 }));
    assert_eq!(points.next(), Some(Point::At { index: 2, bins: 3 }));
    assert_eq!(points.next(), None);
    assert_eq!(points.next_back(), None);

    let mut points = Points::<true>::new(1);
    assert_eq!(points.len(), 1);
    assert_eq!(points.next(), Some(Point::One));
    assert_eq!(points.next(), None);
    let mut points = Points::<true>::new(1);
    assert_eq!(points.next_back(), Some(Point::One));
    assert_eq!(points.len(), 0);

    let mut points = Points::<true>::new(0);
    assert_eq!(points.len(), 0);
    assert_eq!(points.next(), None);
}

#[test]
fn periodic_window_points_leave_the_end_out() {
    let mut points = Points::<false>::new(4);
    assert_eq!(points.next(), Some(Point::At { index: 0, bins: 4 }));
    assert_eq!(points.next(), Some(Point::At { index: 1, bins: 4 }));
    assert_eq!(points.next(), Some(Point::At { index: 2, bins: 4 }));
    assert_eq!(points.next(), Some(Point::At { index: 3, bins: 4 }));
    assert_eq!(points.next(), None);

    let mut points = Points::<false>::new(1);
    assert_eq!(points.next(), Some(Point::At { index: 0, bins: 1 }));
    assert_eq!(points.next(), None);

    let mut points = Points::<false>::new(0);
    assert_eq!(points.next_back(), None);
}

#[test]
fn sinc_cursor_stays_inside_the_buffer() {
    let mut cursor = SincCursor::new(4);
    assert_eq!(cursor.depth(), 2);
    assert_eq!(cursor.position(), 0);
    assert_eq!(cursor.span(), 1);
    cursor.advance();
    assert_eq!(cursor.position(), 1);
    assert_eq!(cursor.span(), 2);
    cursor.advance();
    assert_eq!(cursor.position(), 2);
    assert_eq!(cursor.span(), 2);
    cursor.advance();
    assert_eq!(cursor.position(), 2);

    let cursor = SincCursor::new(0);
    assert_eq!(cursor.span(), 0);
}

#[test]
fn widening_and_narrowing_back_changes_nothing() {
    for s in i8::MIN..=i8::MAX {
        let wide: i64 = s.into_sample();
        let back: i8 = wide.into_sample();
        assert_eq!(back, s);
        let wide: u32 = s.into_sample();
        let back: i8 = wide.into_sample();
        assert_eq!(back, s);
    }
    for s in u8::MIN..=u8::MAX {
        let wide: u128 = s.into_sample();
        let back: u8 = wide.into_sample();
        assert_eq!(back, s);
        let wide: i16 = s.into_sample();
        let back: u8 = wide.into_sample();
        assert_eq!(back, s);
    }
}
