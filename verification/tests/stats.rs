use rosu_ur_calc::{ErrorStatistics, InputError};

#[test]
fn statistics_of_four_errors() {
    let stats = ErrorStatistics::new(&[-10, 5, 5, -20]).unwrap();
    assert_eq!(stats.plus_avg, 5000);
    assert_eq!(stats.minus_avg, -15_000);
    assert_eq!(stats.plus_max, 5);
    assert_eq!(stats.minus_max, -20);
    assert_eq!(stats.unstable_rate, 106_066);
}

#[test]
fn unstable_rate_is_ten_times_the_standard_deviation() {
    let stats = ErrorStatistics::new(&[-10, 5, 5, -20]).unwrap();
    let expected = 112.5f64.sqrt() * 10.0;
    let got = stats.unstable_rate as f64 / 1000.0;
    assert!(got <= expected && expected < got + 0.001);
    assert_eq!((got * 100.0).round() / 100.0, 106.07);
}

#[test]
fn no_errors_give_no_statistics() {
    assert_eq!(ErrorStatistics::new(&[]), Err(InputError::EmptyHitErrorSet));
}

#[test]
fn one_error_has_no_spread() {
    let stats = ErrorStatistics::new(&[7]).unwrap();
    assert_eq!(
        stats,
        ErrorStatistics {
            minus_avg: 0,
            plus_avg: 7000,
            minus_max: 7,
            plus_max: 7,
            unstable_rate: 0,
        }
    );
}

#[test]
fn equal_errors_have_no_spread() {
    let stats = ErrorStatistics::new(&[0, 0, 0]).unwrap();
    assert_eq!(
        stats,
        ErrorStatistics { minus_avg: 0, plus_avg: 0, minus_max: 0, plus_max: 0, unstable_rate: 0 }
    );
}

#[test]
fn exact_presses_count_as_late() {
    let stats = ErrorStatistics::new(&[0, 4, -2]).unwrap();
    assert_eq!(stats.plus_avg, 2000);
    assert_eq!(stats.minus_avg, -2000);
}

#[test]
fn averages_are_rounded_toward_zero() {
    let late = ErrorStatistics::new(&[1, 2]).unwrap();
    assert_eq!(late.plus_avg, 1500);
    assert_eq!(late.unstable_rate, 5000);
    let early = ErrorStatistics::new(&[-1, -2, -2]).unwrap();
    assert_eq!(early.minus_avg, -1666);
    assert_eq!(early.plus_avg, 0);
    assert_eq!(early.unstable_rate, 4714);
}

#[test]
fn extremes_are_the_least_and_the_greatest_error_whatever_their_sign() {
    let early = ErrorStatistics::new(&[-3, -1]).unwrap();
    assert_eq!(early.plus_max, -1);
    assert_eq!(early.minus_max, -3);
    assert_eq!(early.unstable_rate, 10_000);
    let late = ErrorStatistics::new(&[8, 2, 5]).unwrap();
    assert_eq!(late.plus_max, 8);
    assert_eq!(late.minus_max, 2);
}

#[test]
fn widest_errors_give_the_widest_rate() {
    let stats = ErrorStatistics::new(&[399, -399]).unwrap();
    assert_eq!(
        stats,
        ErrorStatistics {
            minus_avg: -399_000,
            plus_avg: 399_000,
            minus_max: -399,
            plus_max: 399,
            unstable_rate: 3_990_000,
        }
    );
}

#[test]
fn errors_at_the_ends_of_the_range_do_not_overflow() {
    let both = ErrorStatistics::new(&[i32::MAX, i32::MIN]).unwrap();
    assert_eq!(
        both,
        ErrorStatistics {
            minus_avg: -2_147_483_648_000,
            plus_avg: 2_147_483_647_000,
            minus_max: i32::MIN,
            plus_max: i32::MAX,
            unstable_rate: 21_474_836_475_000,
        }
    );
    let three = ErrorStatistics::new(&[i32::MIN, i32::MIN, i32::MAX]).unwrap();
    assert_eq!(three.unstable_rate, 20_246_669_995_126);
    let four = ErrorStatistics::new(&[i32::MAX, i32::MAX, i32::MAX, i32::MIN]).unwrap();
    assert_eq!(four.unstable_rate, 18_597_753_929_466);
    let one = ErrorStatistics::new(&[i32::MIN]).unwrap();
    assert_eq!(
        one,
        ErrorStatistics {
            minus_avg: -2_147_483_648_000,
            plus_avg: 0,
            minus_max: i32::MIN,
            plus_max: i32::MIN,
            unstable_rate: 0,
        }
    );
    let half = ErrorStatistics::new(&[i32::MAX, 0]).unwrap();
    assert_eq!(half.plus_avg, 1_073_741_823_500);
    assert_eq!(half.unstable_rate, 10_737_418_235_000);
}

#[test]
fn errors_beyond_the_hittable_range_are_taken_too() {
    let stats = ErrorStatistics::new(&[100_000, -100_000, 5]).unwrap();
    assert_eq!(
        stats,
        ErrorStatistics {
            minus_avg: -100_000_000,
            plus_avg: 50_002_500,
            minus_max: -100_000,
            plus_max: 100_000,
            unstable_rate: 816_496_581,
        }
    );
}

#[test]
fn mixed_errors() {
    let stats = ErrorStatistics::new(&[3, 4, -5, 12, -7, 0]).unwrap();
    assert_eq!(
        stats,
        ErrorStatistics {
            minus_avg: -6000,
            plus_avg: 4750,
            minus_max: -7,
            plus_max: 12,
            unstable_rate: 62_561,
        }
    );
}

#[test]
fn order_of_the_errors_does_not_matter() {
    let a = ErrorStatistics::new(&[3, 4, -5, 12, -7, 0]).unwrap();
    let b = ErrorStatistics::new(&[0, -7, 12, -5, 4, 3]).unwrap();
    assert_eq!(a, b);
}

#[test]
fn many_errors_match_floating_point() {
    let mut list = Vec::new();
    let mut seed: u32 = 99;
    for _ in 0..10_000 {
        seed = seed.wrapping_mul(1_103_515_245).wrapping_add(12345);
        list.push(((seed >> 16) % 799) as i32 - 399);
    }
    let stats = ErrorStatistics::new(&list).unwrap();
    let n = list.len() as f64;
    let mean = list.iter().map(|&e| e as f64).sum::<f64>() / n;
    let variance = list.iter().map(|&e| (e as f64 - mean) * (e as f64 - mean)).sum::<f64>() / n;
    let expected = variance.sqrt() * 10.0;
    assert!((stats.unstable_rate as f64 / 1000.0 - expected).abs() < 0.002);
    assert_eq!(stats.plus_max, *list.iter().max().unwrap());
    assert_eq!(stats.minus_max, *list.iter().min().unwrap());
}
