use mandelbrot::util::{add_element, create_string, double, find_min_max, gives_ownership, sum_slice, sum_vec};

#[test]
fn find_min_max_of_mixed_values() {
    assert_eq!(find_min_max(&[3, -1, 7, 0]), (-1, 7));
    assert_eq!(find_min_max(&[5]), (5, 5));
    assert_eq!(find_min_max(&[2, 2, 2]), (2, 2));
}

#[test]
fn sum_slice_adds_everything() {
    assert_eq!(sum_slice(&[1, 2, 3, 4]), 10);
    assert_eq!(sum_slice(&[]), 0);
    assert_eq!(sum_slice(&[-5, 5]), 0);
}

#[test]
fn sum_vec_matches_slice_sum() {
    let v = vec![10, 20, 30];
    assert_eq!(sum_vec(&v), 60);
    assert_eq!(sum_vec(&v), sum_slice(&v));
}

#[test]
fn add_element_appends() {
    let mut v = vec![1, 2];
    add_element(&mut v, 3);
    assert_eq!(v, vec![1, 2, 3]);
}

#[test]
fn double_doubles() {
    assert_eq!(double(21), 42);
    assert_eq!(double(-4), -8);
    assert_eq!(double(0), 0);
}

#[test]
fn fresh_strings_have_their_contents() {
    assert_eq!(gives_ownership(), "transferred");
    assert_eq!(create_string(), "created");
}
