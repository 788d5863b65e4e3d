use sampara::buffer::Fixed;
use sampara::stats::extrema::{Diff, ExtremaState};
use sampara::stats::{surpasses, EmptyWindow, MovingMax, MovingMin, DO_MAX, DO_MIN};

fn naive(window: &[[i32; 3]], max: bool) -> [i32; 3] {
    let mut out = window[0];
    for frame in window {
        for ch in 0..3 {
            if (max && frame[ch] > out[ch]) || (!max && frame[ch] < out[ch]) {
                out[ch] = frame[ch];
            }
        }
    }
    out
}

fn pseudo_random(seed: &mut u64, spread: i32) -> i32 {
    *seed = seed.wrapping_mul(6364136223846793005).wrapping_add(1442695040888963407);
    ((*seed >> 33) as i32).rem_euclid(spread) - spread / 2
}

#[test]
fn surpasses_is_strict() {
    assert!(surpasses::<i32, DO_MAX>(&2, &1));
    assert!(!surpasses::<i32, DO_MAX>(&1, &1));
    assert!(!surpasses::<i32, DO_MAX>(&0, &1));
    assert!(surpasses::<i32, DO_MIN>(&0, &1));
    assert!(!surpasses::<i32, DO_MIN>(&1, &1));
    assert!(!surpasses::<i32, DO_MIN>(&2, &1));
    assert!(surpasses::<u8, DO_MAX>(&200, &100));
    assert!(surpasses::<i8, DO_MIN>(&-128, &127));
}

#[test]
fn min_of_a_window_that_was_built_up() {
    let window = MovingMin::<i32, 1>::from(vec![[3], [1], [0], [4]]).unwrap();
    assert_eq!(window.current(), [0]);
    assert_eq!(window.len(), 4);
}

#[test]
fn min_stays_when_another_frame_leaves() {
    let mut window = MovingMin::<i32, 1>::from(vec![[3], [1], [0], [2]]).unwrap();
    assert_eq!(window.current(), [0]);
    window.advance([5]);
    assert_eq!(window.current(), [0]);
}

#[test]
fn min_is_promoted_when_the_frontier_leaves() {
    let mut window = MovingMin::<i32, 1>::from(vec![[3], [1], [0], [2]]).unwrap();
    let mut manual = vec![[3], [1], [0], [2]];
    for x in [5, 6, 7, 8, -1, 9, 9, 9, 9] {
        manual.remove(0);
        manual.push([x]);
        let expected = manual.iter().map(|f| f[0]).min().unwrap();
        assert_eq!(window.process([x]), [expected]);
    }
    let mut window = MovingMin::<i32, 1>::from(vec![[3], [1], [0], [2]]).unwrap();
    assert_eq!(window.process([5]), [0]);
    assert_eq!(window.process([6]), [0]);
    assert_eq!(window.process([7]), [2]);
    assert_eq!(window.process([8]), [5]);
    assert_eq!(window.process([-1]), [-1]);
}

#[test]
fn state_reports_what_each_update_did() {
    let mut state = ExtremaState::<i32, 1, false>::from([3]);
    assert_eq!(state.push([1]), [Diff::Frontier]);
    assert_eq!(state.push([0]), [Diff::Frontier]);
    assert_eq!(state.push([2]), [Diff::HorizonInit]);
    assert_eq!(state.extrema(), [0]);

    let mut state = ExtremaState::<i32, 1, false>::from([3]);
    state.push([1]);
    state.push([4]);
    assert_eq!(state.push([2]), [Diff::Horizon]);
    assert_eq!(state.push([5]), [Diff::NoChange]);
    assert_eq!(state.extrema(), [1]);
}

#[test]
fn window_of_one_frame_follows_the_input() {
    let mut min = MovingMin::<i32, 2>::from(vec![[7, -7]]).unwrap();
    let mut max = MovingMax::<i32, 2>::from(vec![[7, -7]]).unwrap();
    assert_eq!(min.current(), [7, -7]);
    for x in [3, 9, 9, -4, 0, 12, 12, 1] {
        assert_eq!(min.process([x, -x]), [x, -x]);
        assert_eq!(max.process([x, -x]), [x, -x]);
        assert_eq!(min.len(), 1);
    }
}

#[test]
fn extrema_match_a_rescan_on_every_step() {
    for len in 1..=8usize {
        for spread in [3, 50, 1000] {
            let mut seed = (len as u64) * 7919 + spread as u64;
            let mut manual: Vec<[i32; 3]> = (0..len)
                .map(|_| {
                    [
                        pseudo_random(&mut seed, spread),
                        pseudo_random(&mut seed, spread),
                        pseudo_random(&mut seed, spread),
                    ]
                })
                .collect();
            let mut min = MovingMin::<i32, 3>::from(manual.clone()).unwrap();
            let mut max = MovingMax::<i32, 3>::from(manual.clone()).unwrap();
            assert_eq!(min.current(), naive(&manual, false));
            assert_eq!(max.current(), naive(&manual, true));
            for _ in 0..200 {
                let frame = [
                    pseudo_random(&mut seed, spread),
                    pseudo_random(&mut seed, spread),
                    pseudo_random(&mut seed, spread),
                ];
                manual.remove(0);
                manual.push(frame);
                assert_eq!(min.process(frame), naive(&manual, false));
                assert_eq!(max.process(frame), naive(&manual, true));
                assert_eq!(min.len(), len);
            }
        }
    }
}

#[test]
fn extrema_of_steadily_worsening_input() {
    let mut min = MovingMin::<i64, 1>::from(vec![[0], [1], [2], [3], [4]]).unwrap();
    let mut max = MovingMax::<i64, 1>::from(vec![[0], [-1], [-2], [-3], [-4]]).unwrap();
    for x in 5..60i64 {
        assert_eq!(min.process([x]), [x - 4]);
        assert_eq!(max.process([-x]), [-(x - 4)]);
    }
}

#[test]
fn current_is_the_same_however_often_it_is_read() {
    let mut window = MovingMax::<u8, 2>::from(vec![[1, 200], [9, 100], [4, 150]]).unwrap();
    let first = window.current();
    assert_eq!(first, [9, 200]);
    assert_eq!(window.current(), first);
    assert_eq!(window.current(), first);
    window.advance([0, 0]);
    let second = window.current();
    assert_eq!(second, [9, 150]);
    assert_eq!(window.current(), second);
}

#[test]
fn empty_buffer_is_refused() {
    assert!(matches!(MovingMin::<i32, 1>::from(vec![]), Err(EmptyWindow)));
    assert!(matches!(MovingMax::<i32, 1>::from(vec![]), Err(EmptyWindow)));
    assert!(matches!(MovingMin::<i32, 1>::from_empty(vec![]), Err(EmptyWindow)));
    assert!(matches!(MovingMax::<u16, 4>::from_empty(vec![]), Err(EmptyWindow)));
}

#[test]
fn from_empty_starts_at_equilibrium() {
    let window = MovingMin::<i32, 1>::from_empty(vec![[-100]; 4]).unwrap();
    assert_eq!(window.current(), [0]);
    let window = MovingMax::<u8, 2>::from_empty(vec![[255, 255]; 99]).unwrap();
    assert_eq!(window.current(), [128, 128]);
    assert_eq!(window.len(), 99);
}

#[test]
fn moving_min_slides_over_the_input() {
    let mut window = MovingMin::<i32, 1>::from(vec![[0], [25], [50], [75]]).unwrap();
    assert_eq!(window.current(), [0]);
    assert_eq!(window.process([100]), [25]);
    assert_eq!(window.process([100]), [50]);
    assert_eq!(window.process([100]), [75]);
    assert_eq!(window.process([100]), [100]);
}

#[test]
fn moving_max_slides_over_the_input() {
    let mut window = MovingMax::<i32, 1>::from(vec![[0], [25], [50], [75]]).unwrap();
    assert_eq!(window.current(), [75]);
    window.advance([100]);
    assert_eq!(window.current(), [100]);
    window.advance([-1]);
    window.advance([-2]);
    window.advance([-3]);
    assert_eq!(window.current(), [100]);
    window.advance([-4]);
    assert_eq!(window.current(), [-1]);
}

#[test]
fn reset_returns_to_equilibrium() {
    let mut window = MovingMin::<i32, 1>::from(vec![[25], [75], [25], [75]]).unwrap();
    assert_eq!(window.current(), [25]);
    window.reset();
    assert_eq!(window.current(), [0]);
    assert_eq!(window.len(), 4);
    assert_eq!(window.process([9]), [0]);
    assert_eq!(window.process([9]), [0]);
    assert_eq!(window.process([9]), [0]);
    assert_eq!(window.process([9]), [9]);
}

#[test]
fn fill_overwrites_the_window() {
    let mut window = MovingMax::<i32, 1>::from_empty(vec![[-1]; 4]).unwrap();
    assert_eq!(window.current(), [0]);
    window.fill([-50]);
    assert_eq!(window.current(), [-50]);
    assert_eq!(window.process([-60]), [-50]);
    assert_eq!(window.process([-60]), [-50]);
    assert_eq!(window.process([-60]), [-50]);
    assert_eq!(window.process([-60]), [-60]);
}

#[test]
fn fill_with_takes_the_frames_in_order() {
    let mut min = MovingMin::<i32, 1>::from_empty(vec![[-1]; 4]).unwrap();
    let mut x = 100;
    min.fill_with(|| {
        x -= 25;
        [x]
    });
    assert_eq!(min.current(), [0]);
    assert_eq!(min.process([80]), [0]);
    assert_eq!(min.process([80]), [0]);
    assert_eq!(min.process([80]), [0]);
    assert_eq!(min.process([80]), [80]);

    let mut max = MovingMax::<i32, 1>::from_empty(vec![[-1]; 4]).unwrap();
    let mut x = 100;
    max.fill_with(|| {
        x -= 25;
        [x]
    });
    assert_eq!(max.current(), [75]);
    assert_eq!(max.process([-80]), [50]);
    assert_eq!(max.process([-80]), [25]);
}

#[test]
fn into_buffer_keeps_the_number_of_slots() {
    let mut window = MovingMin::<i32, 1>::from(vec![[1], [2], [3]]).unwrap();
    window.advance([4]);
    assert_eq!(window.into_buffer().len(), 3);
}

fn step(state: &mut ExtremaState<i32, 1, false>, window: &mut Fixed<[i32; 1]>, x: i32) -> Diff {
    window.push([x]);
    state.push_pop([x], window)[0]
}

#[test]
fn push_pop_reports_each_case() {
    let mut window = Fixed::from(vec![[3], [1], [0], [2]]);
    let mut state = ExtremaState::<i32, 1, false>::from_window(&window);
    assert_eq!(state.extrema(), [0]);

    // Another frame leaves and the input surpasses nothing.
    assert_eq!(step(&mut state, &mut window, 5), Diff::NoChange);
    assert_eq!(step(&mut state, &mut window, 6), Diff::NoChange);
    assert_eq!(state.extrema(), [0]);
    // The frontier leaves and the horizon takes its place.
    assert_eq!(step(&mut state, &mut window, 7), Diff::Promoted);
    assert_eq!(state.extrema(), [2]);
    assert_eq!(step(&mut state, &mut window, 8), Diff::Promoted);
    assert_eq!(state.extrema(), [5]);
    // The frontier leaves and the input surpasses it.
    assert_eq!(step(&mut state, &mut window, -1), Diff::Frontier);
    assert_eq!(state.extrema(), [-1]);
    // There is no horizon after a new frontier, so the input becomes it.
    assert_eq!(step(&mut state, &mut window, 4), Diff::HorizonInit);
    // The input surpasses the horizon but not the frontier.
    assert_eq!(step(&mut state, &mut window, 3), Diff::Horizon);
    assert_eq!(step(&mut state, &mut window, 9), Diff::NoChange);
    assert_eq!(state.extrema(), [-1]);
    // The frontier leaves and the input snipes the promotion of the horizon.
    assert_eq!(step(&mut state, &mut window, 2), Diff::Frontier);
    assert_eq!(state.extrema(), [2]);
    // The input surpasses the frontier while another frame leaves.
    assert_eq!(step(&mut state, &mut window, 1), Diff::Frontier);
    assert_eq!(state.extrema(), [1]);

    // In a window of one frame the frontier leaves and there is no horizon.
    let mut window = Fixed::from(vec![[3]]);
    let mut state = ExtremaState::<i32, 1, false>::from_window(&window);
    assert_eq!(step(&mut state, &mut window, 5), Diff::Frontier);
    assert_eq!(step(&mut state, &mut window, 5), Diff::Frontier);
    assert_eq!(step(&mut state, &mut window, 4), Diff::Frontier);
    assert_eq!(state.extrema(), [4]);
}

#[test]
fn equal_values_do_not_surpass() {
    let mut window = Fixed::from(vec![[1], [1], [1]]);
    let mut state = ExtremaState::<i32, 1, false>::from_window(&window);
    assert_eq!(step(&mut state, &mut window, 1), Diff::Promoted);
    assert_eq!(step(&mut state, &mut window, 1), Diff::Promoted);
    assert_eq!(state.extrema(), [1]);
    let mut min = MovingMin::<i32, 1>::from(vec![[1], [1], [1]]).unwrap();
    for _ in 0..10 {
        assert_eq!(min.process([1]), [1]);
    }
}

#[test]
fn frontier_of_a_window_that_is_built_up() {
    let mut state = ExtremaState::<i32, 1, false>::from([3]);
    state.push([1]);
    state.push([0]);
    // The frontier is the newest item: no frames ago.
    assert_eq!(state.frontier(0), (0, 2));
    assert_eq!(state.frontier_age(0), 0);
    assert_eq!(state.horizon(0), None);
    state.push([4]);
    assert_eq!(state.frontier(0), (0, 2));
    assert_eq!(state.frontier_age(0), 1);
    assert_eq!(state.horizon(0), Some((4, 0)));
    assert_eq!(state.cursor_pos(), 3);
    assert_eq!(state.extrema(), [0]);
}

#[test]
fn frontier_of_a_filled_window_is_its_newest_frame() {
    for len in 1..=8usize {
        let min = MovingMin::<i32, 3>::from_empty(vec![[7, 8, 9]; len]).unwrap();
        let max = MovingMax::<u16, 3>::from_empty(vec![[7, 8, 9]; len]).unwrap();
        assert_eq!(min.current(), [0, 0, 0]);
        assert_eq!(max.current(), [0x8000, 0x8000, 0x8000]);
        for ch in 0..3 {
            assert_eq!(min.state().frontier(ch), (0, len - 1));
            assert_eq!(max.state().frontier(ch), (0x8000, len - 1));
            assert_eq!(min.state().horizon(ch), None);
        }
        assert_eq!(min.state().cursor_pos(), len - 1);
    }
}

#[test]
fn clone_has_a_window_of_its_own() {
    let mut window = MovingMin::<i32, 1>::from(vec![[3], [1], [2]]).unwrap();
    let mut copy = window.clone();
    assert_eq!(copy.current(), [1]);
    assert_eq!(window.process([5]), [1]);
    assert_eq!(window.process([5]), [2]);
    assert_eq!(copy.current(), [1]);
    assert_eq!(copy.process([0]), [0]);
    assert_eq!(window.current(), [2]);

    let mut ring = Fixed::from(vec![1, 2, 3]);
    ring.push(4);
    let mut copy = ring.clone();
    assert_eq!(copy.push(9), 2);
    assert_eq!(ring.push(8), 2);
    assert_eq!(ring.raw_parts(), (2, &vec![4, 8, 3]));
    assert_eq!(copy.raw_parts(), (2, &vec![4, 9, 3]));
}
