use path_trail::utils::maths::{get_average, get_median, get_outliers, get_quartile_values};

fn median_as_real(data: &[usize]) -> f64 {
    get_median(data).unwrap() as f64 / 2.0
}

fn quartiles_as_reals(data: &[usize]) -> (f64, f64, f64) {
    let (q1, q2, q3) = get_quartile_values(data).unwrap();
    (q1 as f64 / 2.0, q2 as f64 / 2.0, q3 as f64 / 2.0)
}

fn average_as_real(data: &[usize]) -> f64 {
    let (numerator, denominator) = get_average(data);
    numerator as f64 / denominator as f64
}

#[test]
fn get_outliers_empty_data_set() {
    assert_eq!(get_outliers([].to_vec(), true), None);
}

#[test]
fn get_outliers_set_of_one() {
    assert_eq!(get_outliers([30].to_vec(), true), None);
}

#[test]
fn get_outliers_set_of_two() {
    assert_eq!(get_outliers([30, 90].to_vec(), true), None);
}

#[test]
fn get_outliers_none() {
    assert_eq!(get_outliers([1, 2, 4, 10].to_vec(), true), None);
}

#[test]
fn get_outliers_some_1() {
    assert_eq!(
        get_outliers(
            [10, 12, 11, 15, 11, 14, 13, 17, 12, 22, 14, 11].to_vec(),
            false
        ),
        Some(([].to_vec(), [22].to_vec()))
    );
}

#[test]
fn get_outliers_some_2() {
    assert_eq!(
        get_outliers(
            [0, 3, 3, 3, 11, 12, 13, 15, 19, 20, 29, 40, 79].to_vec(),
            false
        ),
        Some(([].to_vec(), [79].to_vec()))
    );
}

#[test]
fn get_quartile_values_empty_set() {
    assert!(get_quartile_values(&[]).is_none());
}

#[test]
fn get_quartile_values_set_of_one() {
    assert!(get_quartile_values(&[10]).is_none());
}

#[test]
fn get_quartile_values_set_of_two() {
    assert_eq!(quartiles_as_reals(&[10, 12]), (10.0, 11.0, 12.0));
}

#[test]
fn get_quartile_values_set_of_three() {
    assert_eq!(quartiles_as_reals(&[10, 11, 12]), (10.0, 11.0, 12.0));
}

// [1   2   3   4]   [5   6   7   8]
//        |        |        |
//        Q1       Q2       Q3
#[test]
fn get_quartile_values_even_set_even_halves() {
    assert_eq!(
        quartiles_as_reals(&[1, 2, 3, 4, 5, 6, 7, 8]),
        (2.5, 4.5, 6.5)
    );
}

// [1   2   3]   [4   5   6]
//      |      |      |
//      Q1     Q2     Q3
#[test]
fn get_quartile_values_even_set_odd_halves() {
    assert_eq!(quartiles_as_reals(&[1, 2, 3, 4, 5, 6]), (2.0, 3.5, 5.0));
}

// [1   2   3   4]   5   [6   7   8   9]
//        |          |          |
//        Q1         Q2         Q3
#[test]
fn get_quartile_values_odd_set_even_halves() {
    assert_eq!(
        quartiles_as_reals(&[1, 2, 3, 4, 5, 6, 7, 8, 9]),
        (2.5, 5.0, 7.5)
    );
}

// [1   2   3   4   5]   6   [7   8   9   10   11]
//          |            |            |
//          Q1           Q2           Q3
#[test]
fn get_quartile_values_odd_set_odd_halves() {
    assert_eq!(
        quartiles_as_reals(&[1, 2, 3, 4, 5, 6, 7, 8, 9, 10, 11]),
        (3.0, 6.0, 9.0)
    );
}

#[test]
fn get_median_no_elements() {
    assert!(get_median(&[]).is_none());
}

#[test]
fn get_median_one_element() {
    assert!((median_as_real(&[3]) - 3.0).abs() < 0.0001);
}

#[test]
fn get_median_even_set() {
    assert!((median_as_real(&[1, 2, 3, 4, 5, 6]) - 3.5).abs() < 0.0001);
}

#[test]
fn get_median_odd_set() {
    assert!((median_as_real(&[1, 2, 3, 4, 5]) - 3.0).abs() < 0.0001);
}

#[test]
fn get_median_random_numbers_even_set() {
    assert!((median_as_real(&[1, 11, 34, 66, 209, 353, 1067, 10_453]) - 137.5).abs() < 0.0001);
}

#[test]
fn get_median_random_numbers_odd_set() {
    assert!((median_as_real(&[1, 23, 24, 45, 200, 343, 1001]) - 45.0).abs() < 0.0001);
}

#[test]
fn get_average_no_elements() {
    assert!(average_as_real(&[]).abs() < 0.0001);
}

#[test]
fn get_average_1() {
    assert!((average_as_real(&[11, 100, 21, 34]) - 41.5).abs() < 0.0001);
}

#[test]
fn get_average_2() {
    assert!((average_as_real(&[3, 0, 49, 2000]) - 513.0).abs() < 0.0001);
}

#[test]
fn get_outliers_keeps_lower_and_upper_apart() {
    // 1 falls below the lower fence, 99 above the upper one.
    let result = get_outliers([1, 40, 41, 42, 42, 43, 43, 44, 44, 45, 46, 99].to_vec(), false);
    assert_eq!(result, Some(([1].to_vec(), [99].to_vec())));
}

#[test]
fn get_outliers_unsorted_input_is_sorted_first() {
    let sorted = get_outliers([10, 11, 11, 11, 12, 12, 13, 14, 14, 15, 17, 22].to_vec(), true);
    let unsorted = get_outliers([22, 11, 10, 12, 14, 11, 13, 17, 12, 15, 14, 11].to_vec(), false);
    assert_eq!(sorted, unsorted);
}
