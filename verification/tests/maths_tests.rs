use termifind::utils::maths::{get_average, get_outliers};

#[test]
fn get_average_no_elements() {
    let data: Vec<usize> = Vec::new();
    assert!(get_average(&data).is_err());
}

#[test]
fn get_average_1() {
    let (sum, count) = get_average(&vec![11, 100, 21, 34]).expect("Oops");
    assert!((sum as f32 / count as f32 - 41.5).abs() < 0.0001);
}

#[test]
fn get_average_2() {
    let (sum, count) = get_average(&vec![3, 0, 49, 2000]).expect("Oops");
    assert!((sum as f32 / count as f32 - 513.0).abs() < 0.0001);
}

#[test]
fn get_average_is_exact() {
    assert_eq!(get_average(&vec![11, 100, 21, 34]), Ok((166, 4)));
    assert_eq!(get_average(&vec![3, 0, 49, 2000]), Ok((2052, 4)));
}

#[test]
fn get_average_empty_error_message() {
    let data: Vec<usize> = Vec::new();
    assert_eq!(
        get_average(&data),
        Err("Cannot calculate the average of an empty data set")
    );
}

#[test]
fn get_outliers_empty_sample_has_no_result() {
    assert!(get_outliers(Vec::new(), true).is_none());
}

#[test]
fn get_outliers_none_found_is_a_pair_of_empty_vecs() {
    let result = get_outliers(vec![1, 2, 4, 10], true);
    assert_eq!(result, Some((Vec::new(), Vec::new())));
}

#[test]
fn get_outliers_unsorted_sample_with_one_high_outlier() {
    let data = vec![10, 12, 11, 15, 11, 14, 13, 17, 12, 22, 14, 11];
    let result = get_outliers(data, false);
    assert_eq!(result, Some((Vec::new(), vec![22])));
}

#[test]
fn get_outliers_low_and_high() {
    // sorted: [1, 100, 101, 102, 103, 104, 300]; Q1 = 100, Q3 = 104,
    // IQR = 4, bounds [94, 110]: 1 is low, 300 is high.
    let data = vec![100, 300, 102, 1, 104, 101, 103];
    let result = get_outliers(data, false);
    assert_eq!(result, Some((vec![1], vec![300])));
}

#[test]
fn get_outliers_single_value() {
    // One sample: both quartiles come from empty halves, so the bounds sit
    // at zero and the value itself counts as high.
    let result = get_outliers(vec![5], true);
    assert_eq!(result, Some((Vec::new(), vec![5])));
}

#[test]
fn get_quartiles_even_sample() {
    // [1, 2, 4, 10]: Q1 = 1.5, median = 3, Q3 = 7 — doubled: 3, 6, 14.
    assert_eq!(
        termifind::utils::maths::get_quartiles(vec![1, 2, 4, 10], true),
        (3, 6, 14)
    );
}

#[test]
fn get_quartiles_unsorted_sample() {
    // sorted: [10, 11, 11, 11, 12, 12, 13, 14, 14, 15, 17, 22]:
    // Q1 = 11, median = 12.5, Q3 = 14.5 — doubled: 22, 25, 29.
    let data = vec![10, 12, 11, 15, 11, 14, 13, 17, 12, 22, 14, 11];
    assert_eq!(termifind::utils::maths::get_quartiles(data, false), (22, 25, 29));
}
