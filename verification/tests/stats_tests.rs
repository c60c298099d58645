use dm_analyser::nth;
use dm_analyser::stats::{isqrt, standard_deviation};
use dm_analyser::{dataset_average, dataset_sum};

#[test]
fn average_of_empty_dataset_is_zero() {
    let empty: Vec<usize> = Vec::new();
    assert_eq!(dataset_average(&empty), 0);
}

#[test]
fn sum_and_average() {
    assert_eq!(dataset_sum(&[1, 2, 3]), 6);
    assert_eq!(dataset_sum(&[]), 0);
    assert_eq!(dataset_average(&[3, 4, 6]), 4);
    assert_eq!(dataset_average(&[10]), 10);
}

#[test]
fn standard_deviation_known_case() {
    // Totals [1,2,3,4,5]: mean 3, population standard deviation sqrt(2),
    // reported scaled by 10^4 and rounded down.
    assert_eq!(standard_deviation(15, &[1, 2, 3, 4, 5], 5), 14142);
}

#[test]
fn standard_deviation_uniform_is_zero() {
    assert_eq!(standard_deviation(12, &[4, 4, 4], 3), 0);
    assert_eq!(standard_deviation(0, &[], 0), 0);
}

#[test]
fn integer_square_root() {
    assert_eq!(isqrt(0), 0);
    assert_eq!(isqrt(1), 1);
    assert_eq!(isqrt(3), 1);
    assert_eq!(isqrt(4), 2);
    assert_eq!(isqrt(200000000), 14142);
    assert_eq!(isqrt(u64::MAX as u128 * u64::MAX as u128), u64::MAX as u128);
    assert_eq!(isqrt(u128::MAX), u64::MAX as u128);
}

#[test]
fn ordinal_suffixes() {
    assert_eq!(nth(1), "1st");
    assert_eq!(nth(2), "2nd");
    assert_eq!(nth(3), "3rd");
    assert_eq!(nth(4), "4th");
    assert_eq!(nth(11), "11th");
    assert_eq!(nth(12), "12th");
    assert_eq!(nth(13), "13th");
    assert_eq!(nth(21), "21st");
    assert_eq!(nth(101), "101st");
    assert_eq!(nth(111), "111th");
    assert_eq!(nth(0), "0th");
}
