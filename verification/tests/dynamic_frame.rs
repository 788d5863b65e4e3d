use sampara::frame::{Dynamic, Frame};

#[test]
fn resize() {
    let mut f: Dynamic<i8> = Dynamic::from([-30, -10, 10, 30]);

    let contents = f.iter().copied().collect::<Vec<_>>();
    assert_eq!(contents, &[-30, -10, 10, 30]);

    f.resize(2, -128);

    let contents = f.iter().copied().collect::<Vec<_>>();
    assert_eq!(contents, &[-30, -10]);

    let mut f: Dynamic<i8> = Dynamic::from([-30, -10, 10, 30]);

    f.resize(8, -128);

    let contents = f.iter().copied().collect::<Vec<_>>();
    assert_eq!(contents, &[-30, -10, 10, 30, -128, -128, -128, -128]);
}

#[test]
fn empty_identites() {
    let fs: Vec<Dynamic<i8>> = vec![
        Dynamic::equil(),
        Dynamic::default(),
        Dynamic::from(vec![]),
        Dynamic::from(vec![].into_boxed_slice()),
        Dynamic::from([]),
    ];

    let xs = fs.iter();
    let ys = fs.iter();
    for (x, y) in ys.flat_map(|y| xs.clone().map(move |x| (x, y))) {
        assert_eq!(x, y);
    }

    let mut f: Dynamic<i8> = Dynamic::equil();

    f.resize(1, 0);

    assert_eq!(Dynamic::<i8>::equil().len(), 0);
    assert_eq!(f.len(), 1);

    println!("{:?}", Dynamic::<i8>::equil());
}

#[test]
fn truncate_drops_channels_beyond_the_length() {
    let mut f: Dynamic<i16> = Dynamic::from(vec![1, 2, 3, 4]);
    f.truncate::<fn() -> i16>(6);
    assert_eq!(f.iter().copied().collect::<Vec<_>>(), &[1, 2, 3, 4]);
    f.truncate::<fn() -> i16>(4);
    assert_eq!(f.len(), 4);
    f.truncate::<fn() -> i16>(1);
    assert_eq!(f.iter().copied().collect::<Vec<_>>(), &[1]);
    f.truncate::<fn() -> i16>(0);
    assert_eq!(f.len(), 0);
}

#[test]
fn resize_with_calls_the_closure_for_each_new_channel() {
    let mut f: Dynamic<i32> = Dynamic::from([7, 8]);
    let mut next = 0;
    f.resize_with(5, || {
        next += 10;
        next
    });
    assert_eq!(f.iter().copied().collect::<Vec<_>>(), &[7, 8, 10, 20, 30]);
    f.resize_with(1, || 99);
    assert_eq!(f.iter().copied().collect::<Vec<_>>(), &[7]);
    f.resize_with(1, || 99);
    assert_eq!(f.iter().copied().collect::<Vec<_>>(), &[7]);
}

#[test]
fn into_boxed_slice_keeps_the_samples() {
    let f: Dynamic<u8> = Dynamic::from(vec![9, 8, 7]);
    let boxed = f.into_boxed_slice();
    assert_eq!(&*boxed, &[9, 8, 7]);
    let back: Dynamic<u8> = Dynamic::from(boxed);
    assert_eq!(back, Dynamic::from_vec(vec![9, 8, 7]));
}

#[test]
fn channels_are_reached_by_index() {
    let mut f: Dynamic<i8> = Dynamic::from([-30, -10, 10]);
    assert_eq!(f.get(0), Some(&-30));
    assert_eq!(f.get(2), Some(&10));
    assert_eq!(f.get(3), None);
    *f.get_mut(1).unwrap() = 5;
    assert_eq!(f.get_mut(3), None);
    assert_eq!(f.iter().copied().collect::<Vec<_>>(), &[-30, 5, 10]);
}
