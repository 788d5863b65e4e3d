use gcd::Gcd;
use sampara::phase::{simplify, Rational};

const NUM_STEPS: u32 = 1000;

fn samples() -> Vec<u32> {
    let mut v = vec![0, 1, 2, 3, 4, 5, 7, 8, 11, 15, 16, 23, 24, 35, 63, 99, 255, 256, 1023];
    for exp in 0..32 {
        v.push(u32::MAX >> exp);
        v.push((u32::MAX >> exp).wrapping_sub(1));
        v.push((1u32 << exp).wrapping_add(1));
    }
    v.push(2 * 3 * 5 * 7 * 11 * 13 - 1);
    v.push(3 * 3 * 3 * 1024 - 1);
    v
}

#[test]
fn simplify_is_symmetric() {
    for &to_add in &samples() {
        for &to_rem in &samples() {
            let produced = {
                let (a, b) = simplify(to_rem, to_add);
                (b, a)
            };
            let expected = simplify(to_add, to_rem);

            assert_eq!(produced, expected);
        }
    }
}

#[test]
fn simplify_simplifies() {
    for &to_add in &samples() {
        for &to_rem in &samples() {
            let produced = {
                let (simp_to_add, simp_to_rem) = simplify(to_add, to_rem);
                (simp_to_add as u64, simp_to_rem as u64)
            };

            let (num, den) = (to_add as u64 + 1, to_rem as u64 + 1);
            let div = num.gcd(den);

            let (simp_num, simp_den) = (num / div, den / div);
            let expected = (simp_num - 1, simp_den - 1);

            assert_eq!(produced, expected);
        }
    }
}

#[test]
fn simplify_handles_max() {
    for exp in 0..u32::BITS {
        let max = u32::MAX;
        let min = u32::MAX >> exp;

        let factor = 2u32.pow(exp);

        let produced = simplify(max, min);
        let expected = (factor - 1, 0);
        assert_eq!(produced, expected);

        let produced = simplify(min, max);
        let expected = (0, factor - 1);
        assert_eq!(produced, expected);
    }
}

#[test]
fn simplify_divides_by_the_common_divisor() {
    assert_eq!(simplify(5, 8), (1, 2));
    assert_eq!(simplify(8, 5), (2, 1));
    assert_eq!(simplify(9, 14), (1, 2));
    assert_eq!(simplify(6, 6), (0, 0));
    assert_eq!(simplify(0, 0), (0, 0));
    assert_eq!(simplify(u32::MAX, u32::MAX), (0, 0));
    assert_eq!(simplify(6, 9), (6, 9));
    assert_eq!(simplify(u32::MAX, 0), (u32::MAX, 0));
    assert_eq!(simplify(u32::MAX, 1), (0x7fff_ffff, 0));
    assert_eq!(simplify(u32::MAX, 5), (0x7fff_ffff, 2));
    assert_eq!(simplify(11, u32::MAX), (2, 0x3fff_ffff));
}

#[test]
fn rational_happy_path() {
    for &to_add in &samples() {
        for &to_rem in &[0u32, 1, 2, 5, 7, 16, 99, 1023, u32::MAX >> 3, u32::MAX - 1] {
            if to_add == 0 && to_rem == u32::MAX {
                continue;
            }
            let mut phase = Rational::new(to_add, to_rem);

            let (simp_to_add, simp_to_rem) = simplify(to_add, to_rem);

            let mut i = 0;
            for _ in 0..NUM_STEPS {
                let adv_i = i + simp_to_rem as u64 + 1;
                let div = simp_to_add as u64 + 1;

                let next_i = adv_i % div;
                let num_loops = (adv_i / div) as u32;

                assert_eq!(phase.current(), (i, simp_to_add as u64 + 1));
                assert_eq!(phase.advance_count(), num_loops);
                assert_eq!(phase.current().0, next_i);

                i = next_i;
            }
        }
    }
}

#[test]
fn rational_extreme_case_release() {
    let mut phase = Rational::new(0, u32::MAX);

    for _ in 0..NUM_STEPS {
        // Overflows.
        assert_eq!(phase.advance_count(), 0);
    }
}
