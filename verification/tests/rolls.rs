use orexis::rolls::{calc_initial_rolls, pick_low_mid_high, solve_low_mid_high};

#[test]
fn initial_rolls_subtract_one_per_three_levels() {
    assert_eq!(calc_initial_rolls(15, 9), 4);
    assert_eq!(calc_initial_rolls(0, 3), 3);
    assert_eq!(calc_initial_rolls(2, 3), 3);
    assert_eq!(calc_initial_rolls(3, 1), 0);
}

#[test]
fn solve_lists_every_split_by_high_rolls() {
    // 3 rolls whose tiers add up to 3: (0,3,0), (1,1,1)
    assert_eq!(solve_low_mid_high(3, 3), vec![(0, 3, 0), (1, 1, 1)]);
    assert_eq!(solve_low_mid_high(4, 3), vec![(0, 2, 1), (1, 0, 2)]);
    assert_eq!(solve_low_mid_high(0, 2), vec![(2, 0, 0)]);
}

#[test]
fn solve_splits_satisfy_both_equations() {
    for step in 0..12 {
        for count in 0..8 {
            for (low, mid, high) in solve_low_mid_high(step, count) {
                assert!(low >= 0 && mid >= 0 && high >= 0);
                assert_eq!(low + mid + high, count);
                assert_eq!(mid + 2 * high, step);
            }
        }
    }
}

#[test]
fn solve_finds_all_splits() {
    for step in 0..12 {
        for count in 0..8 {
            let found = solve_low_mid_high(step, count);
            let mut expected = Vec::new();
            for high in 0..=count {
                for mid in 0..=count {
                    let low = count - mid - high;
                    if low >= 0 && mid + 2 * high == step {
                        expected.push((low, mid, high));
                    }
                }
            }
            expected.sort_by_key(|t| t.2);
            assert_eq!(found, expected);
        }
    }
}

#[test]
fn solve_rejects_impossible_and_negative_inputs() {
    assert!(solve_low_mid_high(7, 3).is_empty());
    assert!(solve_low_mid_high(-1, 3).is_empty());
    assert!(solve_low_mid_high(2, -1).is_empty());
    assert!(solve_low_mid_high(i32::MIN, i32::MAX).is_empty());
}

#[test]
fn solve_handles_extreme_values() {
    let m = i32::MAX;
    assert_eq!(solve_low_mid_high(4, m), vec![(m - 4, 4, 0), (m - 3, 2, 1), (m - 2, 0, 2)]);
    assert!(solve_low_mid_high(m, 3).is_empty());
}

#[test]
fn pick_takes_most_high_rolls() {
    assert_eq!(pick_low_mid_high(3, 3), (1, 1, 1));
    assert_eq!(pick_low_mid_high(4, 3), (1, 0, 2));
    assert_eq!(pick_low_mid_high(6, 3), (0, 0, 3));
}

#[test]
fn pick_without_split_is_zero() {
    assert_eq!(pick_low_mid_high(7, 3), (0, 0, 0));
    assert_eq!(pick_low_mid_high(-2, 3), (0, 0, 0));
}
