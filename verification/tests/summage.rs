use sampara::stats::summage::root_floor;
use sampara::stats::{EmptyWindow, MovingMean, MovingMs, MovingRms};

#[test]
fn root_floor_rounds_down() {
    assert_eq!(root_floor(0), 0);
    assert_eq!(root_floor(1), 1);
    assert_eq!(root_floor(2), 1);
    assert_eq!(root_floor(3), 1);
    assert_eq!(root_floor(4), 2);
    assert_eq!(root_floor(99), 9);
    assert_eq!(root_floor(100), 10);
    assert_eq!(root_floor(2187), 46);
    assert_eq!(root_floor(1 << 62), 1 << 31);
    assert_eq!(root_floor((1 << 62) - 1), (1 << 31) - 1);
    assert_eq!(root_floor(u64::MAX), u32::MAX as u64);
}

#[test]
fn mean_of_a_window() {
    let mut window = MovingMean::<1>::from(vec![[0], [25], [50], [75]]).unwrap();
    assert_eq!(window.current(), [37]);
    assert_eq!(window.process([100]), [62]);
    assert_eq!(window.process([100]), [81]);
    assert_eq!(window.process([100]), [93]);
    assert_eq!(window.process([100]), [100]);
    assert_eq!(window.len(), 4);
}

#[test]
fn mean_rounds_toward_zero() {
    let mut window = MovingMean::<2>::from(vec![[-3, 3], [0, 0]]).unwrap();
    assert_eq!(window.current(), [-1, 1]);
    assert_eq!(window.process([-4, 4]), [-2, 2]);
    assert_eq!(window.process([-1, 1]), [-2, 2]);
    assert_eq!(window.process([0, 0]), [0, 0]);
}

#[test]
fn mean_square_of_a_window() {
    let mut window = MovingMs::<1>::from(vec![[0], [25], [50], [75]]).unwrap();
    assert_eq!(window.current(), [2187]);
    assert_eq!(window.process([100]), [4687]);
    assert_eq!(window.process([-100]), [7031]);
    assert_eq!(window.process([100]), [8906]);
    assert_eq!(window.process([-100]), [10000]);
}

#[test]
fn root_mean_square_of_a_window() {
    let mut window = MovingRms::<1>::from(vec![[0], [25], [50], [75]]).unwrap();
    assert_eq!(window.current(), [46]);
    assert_eq!(window.process([100]), [68]);
    assert_eq!(window.process([-100]), [83]);
    assert_eq!(window.process([100]), [94]);
    assert_eq!(window.process([-100]), [100]);
}

#[test]
fn sums_of_extreme_samples_do_not_overflow() {
    let mut rms = MovingRms::<1>::from(vec![[i32::MIN]; 16]).unwrap();
    let mut ms = MovingMs::<1>::from(vec![[i32::MIN]; 16]).unwrap();
    let mut mean = MovingMean::<1>::from(vec![[i32::MIN]; 16]).unwrap();
    assert_eq!(rms.current(), [1 << 31]);
    assert_eq!(ms.current(), [1 << 62]);
    assert_eq!(mean.current(), [i32::MIN as i64]);
    for _ in 0..40 {
        rms.advance([i32::MAX]);
        ms.advance([i32::MAX]);
        mean.advance([i32::MAX]);
    }
    assert_eq!(rms.current(), [i32::MAX as i64]);
    assert_eq!(ms.current(), [(i32::MAX as i64) * (i32::MAX as i64)]);
    assert_eq!(mean.current(), [i32::MAX as i64]);
}

#[test]
fn running_sum_matches_a_recount() {
    let mut seed: u64 = 12345;
    let mut next = || {
        seed = seed.wrapping_mul(6364136223846793005).wrapping_add(1442695040888963407);
        ((seed >> 33) as i32).rem_euclid(2001) - 1000
    };
    for len in 1..=8usize {
        let mut manual: Vec<[i32; 2]> = (0..len).map(|_| [next(), next()]).collect();
        let mut mean = MovingMean::<2>::from(manual.clone()).unwrap();
        let mut ms = MovingMs::<2>::from(manual.clone()).unwrap();
        let mut rms = MovingRms::<2>::from(manual.clone()).unwrap();
        for _ in 0..100 {
            let frame = [next(), next()];
            manual.remove(0);
            manual.push(frame);
            let mut sum = [0i64; 2];
            let mut squares = [0i64; 2];
            for f in &manual {
                for ch in 0..2 {
                    sum[ch] += f[ch] as i64;
                    squares[ch] += (f[ch] as i64) * (f[ch] as i64);
                }
            }
            let n = len as i64;
            assert_eq!(mean.process(frame), [sum[0] / n, sum[1] / n]);
            assert_eq!(ms.process(frame), [squares[0] / n, squares[1] / n]);
            let roots = rms.process(frame);
            for ch in 0..2 {
                let m = squares[ch] / n;
                assert!(roots[ch] * roots[ch] <= m);
                assert!((roots[ch] + 1) * (roots[ch] + 1) > m);
            }
        }
    }
}

#[test]
fn empty_buffer_is_refused_by_the_means() {
    assert!(matches!(MovingMean::<1>::from(vec![]), Err(EmptyWindow)));
    assert!(matches!(MovingMs::<1>::from(vec![]), Err(EmptyWindow)));
    assert!(matches!(MovingRms::<1>::from(vec![]), Err(EmptyWindow)));
    assert!(matches!(MovingRms::<3>::from_empty(vec![]), Err(EmptyWindow)));
}

#[test]
fn from_empty_starts_at_zero() {
    let mut window = MovingRms::<1>::from_empty(vec![[-1]; 4]).unwrap();
    assert_eq!(window.current(), [0]);
    assert_eq!(window.process([100]), [50]);
    let window = MovingMean::<2>::from_empty(vec![[-1, 7]; 99]).unwrap();
    assert_eq!(window.current(), [0, 0]);
    assert_eq!(window.len(), 99);
}

#[test]
fn reset_forgets_the_window() {
    let mut window = MovingMs::<1>::from(vec![[25], [75], [25], [75]]).unwrap();
    assert_eq!(window.current(), [3125]);
    window.reset();
    assert_eq!(window.current(), [0]);
    assert_eq!(window.len(), 4);
}

#[test]
fn fill_multiplies_the_term() {
    let mut mean = MovingMean::<1>::from_empty(vec![[-1]; 4]).unwrap();
    mean.fill([-50]);
    assert_eq!(mean.current(), [-50]);
    assert_eq!(mean.process([50]), [-25]);
    let mut ms = MovingMs::<1>::from_empty(vec![[-1]; 4]).unwrap();
    ms.fill([-50]);
    assert_eq!(ms.current(), [2500]);
    let mut rms = MovingRms::<1>::from_empty(vec![[-1]; 4]).unwrap();
    rms.fill([-50]);
    assert_eq!(rms.current(), [50]);
    assert_eq!(rms.process([0]), [43]);
}

#[test]
fn fill_with_sums_the_frames() {
    let mut mean = MovingMean::<1>::from_empty(vec![[-1]; 4]).unwrap();
    let mut x = 100;
    mean.fill_with(|| {
        x -= 25;
        [x]
    });
    assert_eq!(mean.current(), [37]);
    assert_eq!(mean.process([100]), [43]);
    assert_eq!(mean.process([100]), [56]);
    let mut rms = MovingRms::<1>::from_empty(vec![[-1]; 4]).unwrap();
    let mut x = 100;
    rms.fill_with(|| {
        x -= 25;
        [x]
    });
    assert_eq!(rms.current(), [46]);
}
