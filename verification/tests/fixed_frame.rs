use sampara::frame::{Fixed, Frame};

#[test]
fn fixed_frame_holds_an_array() {
    let mut f = Fixed::new([1i16, 2, 3]);
    assert_eq!(f.len(), 3);
    assert_eq!(f.get(0), Some(&1));
    assert_eq!(f.get(3), None);
    *f.get_mut(2).unwrap() = 30;
    assert_eq!(f.get_mut(3), None);
    assert_eq!(f.iter().copied().collect::<Vec<_>>(), &[1, 2, 30]);
    assert_eq!(f.into_array(), [1, 2, 30]);
    let g: Fixed<i16, 3> = [1, 2, 30].into();
    assert_eq!(f, g);
}

#[test]
fn equilibrium_frames_are_silent() {
    assert_eq!(Fixed::<i32, 2>::equil().into_array(), [0, 0]);
    assert_eq!(Fixed::<u8, 2>::default().into_array(), [128, 128]);
    assert_eq!(<[u16; 3]>::equil(), [0x8000, 0x8000, 0x8000]);
    assert_eq!(<[i64; 0]>::equil().len(), 0);
}

#[test]
fn arrays_are_frames() {
    let mut f = [5u8, 6];
    assert_eq!(Frame::len(&f), 2);
    assert_eq!(Frame::get(&f, 1), Some(&6));
    assert_eq!(Frame::get(&f, 2), None);
    *Frame::get_mut(&mut f, 0).unwrap() = 50;
    assert_eq!(f, [50, 6]);
}
