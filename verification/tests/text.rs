use clipstack::text::decimal_string;

#[test]
fn decimal_of_small_numbers() {
    assert_eq!(decimal_string(0), "0");
    assert_eq!(decimal_string(7), "7");
    assert_eq!(decimal_string(10), "10");
    assert_eq!(decimal_string(409), "409");
}

#[test]
fn decimal_of_the_largest_number() {
    assert_eq!(decimal_string(usize::MAX), usize::MAX.to_string());
}
