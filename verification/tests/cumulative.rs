use sampara::stats::{CumulativeMax, CumulativeMean, CumulativeMin, CumulativeMs, CumulativeRms};

#[test]
fn cumulative_extrema_cover_every_frame() {
    let mut min = CumulativeMin::<i32, 2>::default();
    let mut max = CumulativeMax::<i32, 2>::default();
    assert!(min.is_empty());
    assert_eq!(min.count(), 0);
    assert_eq!(min.try_current(), None);
    assert_eq!(max.try_current(), None);
    assert_eq!(min.process([5, -5]), [5, -5]);
    assert_eq!(max.process([5, -5]), [5, -5]);
    assert_eq!(min.process([7, -7]), [5, -7]);
    assert_eq!(max.process([7, -7]), [7, -5]);
    assert_eq!(min.process([1, 0]), [1, -7]);
    assert_eq!(max.process([1, 0]), [7, 0]);
    assert_eq!(min.count(), 3);
    assert!(!min.is_empty());
    assert_eq!(min.try_current(), Some([1, -7]));
    assert_eq!(min.current(), [1, -7]);
    min.reset();
    assert!(min.is_empty());
    assert_eq!(min.try_current(), None);
    assert_eq!(min.process([100, 100]), [100, 100]);
}

#[test]
fn first_frame_counts_even_where_it_is_worse_than_equilibrium() {
    let mut min = CumulativeMin::<i32, 1>::default();
    assert_eq!(min.process([50]), [50]);
    let mut max = CumulativeMax::<u8, 1>::default();
    assert_eq!(max.process([3]), [3]);
}

#[test]
fn cumulative_means_cover_every_frame() {
    let mut mean = CumulativeMean::<1>::default();
    let mut ms = CumulativeMs::<1>::default();
    let mut rms = CumulativeRms::<1>::default();
    assert_eq!(mean.try_current(), None);
    assert_eq!(mean.process([-50]), [-50]);
    assert_eq!(ms.process([-50]), [2500]);
    assert_eq!(rms.process([-50]), [50]);
    assert_eq!(mean.process([25]), [-12]);
    assert_eq!(ms.process([25]), [1562]);
    assert_eq!(rms.process([25]), [39]);
    assert_eq!(mean.process([100]), [25]);
    assert_eq!(ms.process([100]), [4375]);
    assert_eq!(rms.process([100]), [66]);
    assert_eq!(mean.count(), 3);
    assert_eq!(rms.try_current(), Some([66]));
    rms.reset();
    assert!(rms.is_empty());
    assert_eq!(rms.try_current(), None);
}
