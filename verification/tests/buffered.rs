use sampara::stats::{
    BufferedMovingMax, BufferedMovingMean, BufferedMovingMin, BufferedMovingMs, BufferedMovingRms,
    EmptyWindow,
};

#[test]
fn turns_active_on_the_frame_that_fills_the_window() {
    for len in 1..=8usize {
        let mut min = BufferedMovingMin::<i32, 1>::from(vec![[-1000]; len]).unwrap();
        let mut max = BufferedMovingMax::<i32, 1>::from(vec![[1000]; len]).unwrap();
        let mut mean = BufferedMovingMean::<1>::from(vec![[1000]; len]).unwrap();
        assert!(!min.is_active());
        assert_eq!(min.current(), None);
        for k in 1..len {
            let x = (k as i32) * 10;
            min.advance([x]);
            max.advance([x]);
            mean.advance([x]);
            assert!(!min.is_active());
            assert!(!max.is_active());
            assert!(!mean.is_active());
            assert_eq!(min.current(), None);
            assert_eq!(max.current(), None);
            assert_eq!(mean.current(), None);
        }
        let last = (len as i32) * 10;
        min.advance([last]);
        max.advance([last]);
        mean.advance([last]);
        assert!(min.is_active());
        assert!(max.is_active());
        assert!(mean.is_active());
        assert_eq!(min.current(), Some([10]));
        assert_eq!(max.current(), Some([last]));
        let sum: i64 = (1..=len as i64).map(|k| k * 10).sum();
        assert_eq!(mean.current(), Some([sum / len as i64]));
        assert_eq!(min.process([5]), Some([5]));
        assert!(min.is_active());
    }
}

#[test]
fn buffered_extrema_slide_once_active() {
    let mut window = BufferedMovingMin::<i32, 1>::from(vec![[-1]; 4]).unwrap();
    assert_eq!(window.process([25]), None);
    assert_eq!(window.process([50]), None);
    assert_eq!(window.process([75]), None);
    assert_eq!(window.process([100]), Some([25]));
    assert_eq!(window.process([100]), Some([50]));
    assert_eq!(window.process([100]), Some([75]));
    assert_eq!(window.process([100]), Some([100]));
}

#[test]
fn buffered_means_slide_once_active() {
    let mut rms = BufferedMovingRms::<1>::from(vec![[-1]; 4]).unwrap();
    let mut ms = BufferedMovingMs::<1>::from(vec![[-1]; 4]).unwrap();
    for x in [25, 50, 75] {
        assert_eq!(rms.process([x]), None);
        assert_eq!(ms.process([x]), None);
    }
    assert_eq!(ms.process([100]), Some([4687]));
    assert_eq!(rms.process([100]), Some([68]));
    assert_eq!(ms.process([-100]), Some([7031]));
    assert_eq!(rms.process([-100]), Some([83]));
}

#[test]
fn from_full_is_active_at_once() {
    let window = BufferedMovingMax::<i32, 1>::from_full(vec![[0], [25], [50], [75]]).unwrap();
    assert!(window.is_active());
    assert_eq!(window.current(), Some([75]));
    let window = BufferedMovingMean::<1>::from_full(vec![[0], [25], [50], [75]]).unwrap();
    assert_eq!(window.current(), Some([37]));
}

#[test]
fn reset_makes_inactive_again() {
    let mut window = BufferedMovingMin::<i32, 1>::from_full(vec![[-1]; 4]).unwrap();
    assert!(window.is_active());
    window.reset();
    assert!(!window.is_active());
    assert_eq!(window.current(), None);
    assert_eq!(window.process([9]), None);
    assert_eq!(window.process([8]), None);
    assert_eq!(window.process([7]), None);
    assert_eq!(window.process([6]), Some([6]));

    let mut window = BufferedMovingMean::<1>::from(vec![[0]; 3]).unwrap();
    window.advance([5]);
    window.reset();
    assert_eq!(window.process([10]), None);
    assert_eq!(window.process([20]), None);
    assert_eq!(window.process([30]), Some([20]));
    window.reset();
    assert_eq!(window.process([10]), None);
}

#[test]
fn fill_makes_active() {
    let mut window = BufferedMovingMin::<i32, 1>::from(vec![[-1]; 4]).unwrap();
    assert_eq!(window.current(), None);
    window.fill([50]);
    assert!(window.is_active());
    assert_eq!(window.current(), Some([50]));
    window.fill([60]);
    assert_eq!(window.current(), Some([60]));

    let mut window = BufferedMovingMean::<1>::from(vec![[-1]; 4]).unwrap();
    window.advance([1]);
    window.fill([50]);
    assert_eq!(window.current(), Some([50]));
    assert_eq!(window.process([10]), Some([40]));
}

#[test]
fn fill_with_makes_active() {
    let mut window = BufferedMovingMax::<i32, 1>::from(vec![[-1]; 4]).unwrap();
    assert_eq!(window.current(), None);
    let mut x = 100;
    window.fill_with(|| {
        x -= 25;
        [x]
    });
    assert_eq!(window.current(), Some([75]));
    assert_eq!(window.process([-5]), Some([50]));
    let mut x = 0;
    window.fill_with(|| {
        x += 1;
        [x]
    });
    assert_eq!(window.current(), Some([4]));
}

#[test]
fn empty_buffer_is_refused_by_the_buffered() {
    assert!(matches!(BufferedMovingMin::<i32, 1>::from(vec![]), Err(EmptyWindow)));
    assert!(matches!(BufferedMovingMin::<i32, 1>::from_full(vec![]), Err(EmptyWindow)));
    assert!(matches!(BufferedMovingRms::<1>::from(vec![]), Err(EmptyWindow)));
    assert!(matches!(BufferedMovingRms::<1>::from_full(vec![]), Err(EmptyWindow)));
}
