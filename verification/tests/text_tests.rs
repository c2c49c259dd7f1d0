use mempool_monitor::text::decimal_string;

#[test]
fn decimal_string_of_zero() {
    assert_eq!(decimal_string(0), "0");
}

#[test]
fn decimal_string_of_one_digit() {
    assert_eq!(decimal_string(7), "7");
}

#[test]
fn decimal_string_of_ten() {
    assert_eq!(decimal_string(10), "10");
}

#[test]
fn decimal_string_matches_to_string() {
    for n in [1u64, 9, 99, 100, 1234567890, 18446744073709551615] {
        assert_eq!(decimal_string(n), n.to_string());
    }
}
