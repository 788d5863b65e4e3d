use sampara::components::combinators::{Mix, Selector};
use sampara::components::processors::MapFn;
use sampara::frame::{Dynamic, Fixed};
use sampara::signal::adaptors::{
    Combine, CombineLazy, Delay, Inspect, Pad, Process, ProcessLazy, StepBy, Take,
};
use sampara::signal::{
    advance_by, from_fn, from_frames, from_samples_dynamic, from_samples_fixed, nth, Signal,
};
use sampara::signal::stats::{
    buffered_moving_max, buffered_moving_mean, moving_mean_padded, moving_min, moving_min_padded,
    moving_rms,
};
use sampara::stats::{BufferedMovingMax, EmptyWindow, MovingMin};

#[test]
fn from_fn_yields_what_the_closure_returns() {
    let mut state = 1;
    let mut signal = from_fn(|| {
        if state < 4 {
            let frame = [state, state * 2, state * 3];
            state += 1;
            Some(frame)
        } else {
            None
        }
    });

    assert_eq!(signal.next(), Some([1, 2, 3]));
    assert_eq!(signal.next(), Some([2, 4, 6]));
    assert_eq!(signal.next(), Some([3, 6, 9]));
    assert_eq!(signal.next(), None);
}

#[test]
fn from_frames_yields_the_frames_in_order() {
    let frames = vec![[0, 0], [16, -16], [32, -32]];
    let mut signal = from_frames(frames);

    assert_eq!(signal.next(), Some([0, 0]));
    assert_eq!(signal.next(), Some([16, -16]));
    assert_eq!(signal.next(), Some([32, -32]));
    assert_eq!(signal.next(), None);
    assert_eq!(signal.next(), None);
}

#[test]
fn from_samples_fixed_reads_whole_frames() {
    let samples = vec![1, 2, 3, 4, 5, 6, 7];
    let mut signal = from_samples_fixed::<i32, 2>(samples);

    assert_eq!(signal.next(), Some([1, 2].into()));
    assert_eq!(signal.next(), Some([3, 4].into()));
    assert_eq!(signal.next(), Some([5, 6].into()));
    // Not enough remaining samples for a full frame, so they are discarded.
    assert_eq!(signal.next(), None);
    assert_eq!(signal.next(), None);

    let mut signal = from_samples_fixed::<i32, 3>(vec![1, 2, 3]);
    assert_eq!(signal.next(), Some(Fixed::new([1, 2, 3])));
    assert_eq!(signal.next(), None);
}

#[test]
fn from_samples_dynamic_reads_whole_frames() {
    let mut signal = from_samples_dynamic(vec![1i16, 2, 3, 4, 5, 6, 7], 3);
    assert_eq!(signal.next(), Some(Dynamic::from([1, 2, 3])));
    assert_eq!(signal.next(), Some(Dynamic::from([4, 5, 6])));
    assert_eq!(signal.next(), None);
    assert_eq!(signal.next(), None);
}

#[test]
fn sig_next_yields_silence_after_the_end() {
    let mut signal = from_frames(vec![[7u8, 9]]);
    assert_eq!(signal.sig_next(), [7, 9]);
    assert_eq!(signal.sig_next(), [128, 128]);
    assert_eq!(signal.sig_next(), [128, 128]);
}

#[test]
fn nth_skips_frames() {
    let mut signal = from_frames((0..=9).map(|x| [x]).collect());

    assert_eq!(nth(&mut signal, 3), Some([3]));
    assert_eq!(nth(&mut signal, 3), Some([7]));
    assert_eq!(nth(&mut signal, 3), None);
}

#[test]
fn advance_by_counts_the_frames_drawn() {
    let mut signal = from_frames((0u8..=9).map(|x| [x]).collect());

    assert_eq!(advance_by(&mut signal, 5), Ok(()));

    assert_eq!(signal.next(), Some([5]));
    assert_eq!(signal.next(), Some([6]));

    assert_eq!(advance_by(&mut signal, 5), Err(3));

    assert_eq!(signal.next(), None);
    assert_eq!(advance_by(&mut signal, 0), Ok(()));
}

#[test]
fn by_ref_leaves_the_signal_in_place() {
    let mut signal = from_frames(vec![[0], [1], [2], [3]]);
    assert_eq!(signal.next(), Some([0]));
    assert_eq!(signal.by_ref().next(), Some([1]));
    assert_eq!(signal.next(), Some([2]));
}

#[test]
fn delay_starts_with_silence() {
    let mut signal = Delay::new(from_frames(vec![[1], [2]]), 2);
    assert_eq!(signal.next(), Some([0]));
    assert_eq!(signal.next(), Some([0]));
    assert_eq!(signal.next(), Some([1]));
    assert_eq!(signal.next(), Some([2]));
    assert_eq!(signal.next(), None);
}

#[test]
fn inspect_sees_each_frame() {
    let mut seen = Vec::new();
    {
        let mut signal = Inspect::new(from_frames(vec![[1], [2], [3]]), |f: &[i32; 1]| {
            seen.push(f[0])
        });
        assert_eq!(signal.next(), Some([1]));
        assert_eq!(signal.next(), Some([2]));
        assert_eq!(signal.next(), Some([3]));
        assert_eq!(signal.next(), None);
    }
    assert_eq!(seen, vec![1, 2, 3]);
}

#[test]
fn take_stops_after_the_count() {
    let mut signal = Take::new(from_frames(vec![[1], [2], [3]]), 2);
    assert_eq!(signal.next(), Some([1]));
    assert_eq!(signal.next(), Some([2]));
    assert_eq!(signal.next(), None);
    let mut signal = Take::new(from_frames(vec![[1]]), 2);
    assert_eq!(signal.next(), Some([1]));
    assert_eq!(signal.next(), None);
    assert_eq!(signal.next(), None);
}

#[test]
fn pad_fills_up_with_silence() {
    let mut signal = Pad::new(from_frames(vec![[1], [2]]), 4);
    assert_eq!(signal.next(), Some([1]));
    assert_eq!(signal.next(), Some([2]));
    assert_eq!(signal.next(), Some([0]));
    assert_eq!(signal.next(), Some([0]));
    assert_eq!(signal.next(), None);
    let mut signal = Pad::new(from_frames(vec![[1], [2], [3]]), 2);
    assert_eq!(signal.next(), Some([1]));
    assert_eq!(signal.next(), Some([2]));
    assert_eq!(signal.next(), Some([3]));
    assert_eq!(signal.next(), None);
}

#[test]
fn step_by_yields_every_nth_frame() {
    let mut signal = StepBy::new(from_frames((0..10).map(|x| [x]).collect()), 3);
    assert_eq!(signal.next(), Some([0]));
    assert_eq!(signal.next(), Some([3]));
    assert_eq!(signal.next(), Some([6]));
    assert_eq!(signal.next(), Some([9]));
    assert_eq!(signal.next(), None);
    let mut signal = StepBy::new(from_frames(vec![[1], [2]]), 1);
    assert_eq!(signal.next(), Some([1]));
    assert_eq!(signal.next(), Some([2]));
    assert_eq!(signal.next(), None);
}

#[test]
fn process_yields_the_outputs() {
    let window = MovingMin::<i32, 1>::from(vec![[0]; 2]).unwrap();
    let mut signal = Process::new(from_frames(vec![[5], [7], [6], [9]]), window);
    assert_eq!(signal.next(), Some([0]));
    assert_eq!(signal.next(), Some([5]));
    assert_eq!(signal.next(), Some([6]));
    assert_eq!(signal.state().len(), 2);
    signal.state_mut().fill([-1]);
    assert_eq!(signal.next(), Some([-1]));
    assert_eq!(signal.next(), None);

    let mut signal = Process::new(from_frames(vec![[5], [7]]), MapFn::new(|f: [i32; 1]| [-f[0]]));
    assert_eq!(signal.next(), Some([-5]));
    assert_eq!(signal.next(), Some([-7]));
    assert_eq!(signal.next(), None);
}

#[test]
fn process_lazy_waits_for_the_first_output() {
    let window = BufferedMovingMax::<i32, 1>::from(vec![[0]; 3]).unwrap();
    let mut signal = ProcessLazy::new(from_frames(vec![[5], [7], [6], [1], [2]]), window);
    assert_eq!(signal.next(), Some([7]));
    assert!(signal.state().is_active());
    assert_eq!(signal.next(), Some([7]));
    assert_eq!(signal.next(), Some([6]));
    assert_eq!(signal.next(), None);

    let window = BufferedMovingMax::<i32, 1>::from(vec![[0]; 3]).unwrap();
    let mut signal = ProcessLazy::new(from_frames(vec![[5], [7]]), window);
    assert_eq!(signal.next(), None);
    assert!(!signal.state().is_active());
    signal.state_mut().fill([4]);
    assert!(signal.state().is_active());
}

#[test]
fn combine_pairs_the_frames() {
    let left = from_frames(vec![[1], [2], [3]]);
    let right = from_frames(vec![[10], [20]]);
    let mut signal = Combine::new(left, right, Mix::new(|l: [i32; 1], r: [i32; 1]| [l[0] + r[0]]));
    assert_eq!(signal.next(), Some([11]));
    assert_eq!(signal.next(), Some([22]));
    assert_eq!(signal.next(), None);

    let left = from_frames(vec![[1], [2]]);
    let right = from_frames(vec![[10], [20]]);
    let mut signal = Combine::new(left, right, Selector::left());
    assert_eq!(signal.next(), Some([1]));
    signal.state_mut().toggle();
    assert_eq!(signal.next(), Some([20]));
    assert_eq!(signal.next(), None);
}

#[test]
fn combine_lazy_waits_for_the_first_output() {
    let left = from_frames(vec![[1], [2], [3], [4]]);
    let right = from_frames(vec![[10], [21], [30], [41]]);
    let odd_sums = Mix::new(|l: [i32; 1], r: [i32; 1]| {
        if (l[0] + r[0]) % 2 == 1 {
            Some([l[0] + r[0]])
        } else {
            None
        }
    });
    let mut signal = CombineLazy::new(left, right, odd_sums);
    assert_eq!(signal.next(), Some([11]));
    assert_eq!(signal.next(), Some([23]));
    assert_eq!(signal.next(), Some([33]));
    assert_eq!(signal.next(), Some([45]));
    assert_eq!(signal.next(), None);

    let left = from_frames(vec![[1], [2], [3], [5]]);
    let right = from_frames(vec![[1], [2], [3], [4]]);
    let odd_sums = Mix::new(|l: [i32; 1], r: [i32; 1]| {
        if (l[0] + r[0]) % 2 == 1 {
            Some([l[0] + r[0]])
        } else {
            None
        }
    });
    let mut signal = CombineLazy::new(left, right, odd_sums);
    assert_eq!(signal.next(), Some([9]));
    assert_eq!(signal.next(), None);
}

#[test]
fn statistics_of_a_signal() {
    let frames = vec![[5], [7], [6], [9], [8]];

    let mut signal = moving_min(from_frames(frames.clone()), vec![[100]; 2]).unwrap();
    assert_eq!(signal.next(), Some([0]));
    assert_eq!(signal.next(), Some([5]));
    assert_eq!(signal.next(), Some([6]));
    assert_eq!(signal.next(), Some([6]));
    assert_eq!(signal.next(), Some([8]));
    assert_eq!(signal.next(), None);

    let mut signal = moving_min_padded(from_frames(frames.clone()), vec![[1], [9]]).unwrap();
    assert_eq!(signal.next(), Some([5]));
    assert_eq!(signal.next(), Some([5]));
    assert_eq!(signal.next(), Some([6]));

    let mut signal = buffered_moving_max(from_frames(frames.clone()), vec![[100]; 3]).unwrap();
    assert_eq!(signal.next(), Some([7]));
    assert_eq!(signal.next(), Some([9]));
    assert_eq!(signal.next(), Some([9]));
    assert_eq!(signal.next(), None);

    let mut signal = buffered_moving_mean(from_frames(frames.clone()), vec![[100]; 4]).unwrap();
    assert_eq!(signal.next(), Some([6]));
    assert_eq!(signal.next(), Some([7]));
    assert_eq!(signal.next(), None);

    let mut signal = moving_mean_padded(from_frames(frames.clone()), vec![[1], [3]]).unwrap();
    assert_eq!(signal.next(), Some([4]));
    assert_eq!(signal.next(), Some([6]));

    let mut signal = moving_rms(from_frames(frames.clone()), vec![[100]; 2]).unwrap();
    assert_eq!(signal.next(), Some([3]));
    assert_eq!(signal.next(), Some([6]));

    assert!(matches!(moving_min(from_frames(frames.clone()), vec![]), Err(EmptyWindow)));
    assert!(matches!(buffered_moving_max(from_frames(frames), vec![]), Err(EmptyWindow)));
}
