use sampara::interpolate::{Interpolant, ResampleRational};

const MAX_TO_ADD: usize = 16;
const MAX_TO_REM: usize = MAX_TO_ADD;
const NUM_STEPS: usize = 1000;

#[test]
fn resample_rational() {
    for to_add in 0..=MAX_TO_ADD {
        for to_rem in 0..=MAX_TO_REM {
            if to_add == to_rem {
                continue;
            }
            let mut rr = ResampleRational::new(to_add, to_rem);

            for t in (0..NUM_STEPS).into_iter().step_by(to_rem + 1) {
                let i = t % (to_add + 1);

                let x = (i as u128, (to_add + 1) as u128);

                let adv = (i + to_rem + 1) / (to_add + 1);

                assert_eq!(rr.step(), (x, adv));
            }
        }
    }
}

#[test]
fn equal_terms_add_and_remove_nothing() {
    for n in [0usize, 1, 7, usize::MAX] {
        let mut rr = ResampleRational::new(n, n);
        for _ in 0..10 {
            assert_eq!(rr.step(), ((0, 1), 1));
        }
    }
}

#[test]
fn upsampling_steps_through_the_added_points() {
    let mut rr = ResampleRational::new(3, 0);
    assert_eq!(rr.step(), ((0, 4), 0));
    assert_eq!(rr.step(), ((1, 4), 0));
    assert_eq!(rr.step(), ((2, 4), 0));
    assert_eq!(rr.step(), ((3, 4), 1));
    assert_eq!(rr.step(), ((0, 4), 0));
}
