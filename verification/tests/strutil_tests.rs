use spinn::strutil::{num_digits, spaces, str_eq, str_lt, u64_to_string, zero_padded};

#[test]
fn decimal_rendering() {
    assert_eq!(u64_to_string(0), "0".to_string());
    assert_eq!(u64_to_string(7), "7".to_string());
    assert_eq!(u64_to_string(1234567890), "1234567890".to_string());
    assert_eq!(u64_to_string(u64::MAX), "18446744073709551615".to_string());
}

#[test]
fn digit_counting() {
    assert_eq!(num_digits(0), 1);
    assert_eq!(num_digits(9), 1);
    assert_eq!(num_digits(10), 2);
    assert_eq!(num_digits(u64::MAX), 20);
}

#[test]
fn zero_padding() {
    assert_eq!(zero_padded(7, 3), "007".to_string());
    assert_eq!(zero_padded(11, 2), "11".to_string());
    assert_eq!(zero_padded(123, 2), "123".to_string());
}

#[test]
fn space_runs() {
    assert_eq!(spaces(0), "".to_string());
    assert_eq!(spaces(4), "    ".to_string());
}

#[test]
fn string_order_is_lexicographic() {
    assert!(str_lt("arrow", "dots"));
    assert!(!str_lt("dots", "arrow"));
    assert!(str_lt("a", "ab"));
    assert!(!str_lt("ab", "ab"));
    assert!(str_eq("ab", "ab"));
    assert!(!str_eq("ab", "ba"));
}
