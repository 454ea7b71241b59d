use kelvin_submit::text::{push_decimal, to_decimal};

#[test]
fn decimal_of_small_numbers() {
    assert_eq!(to_decimal(0), "0");
    assert_eq!(to_decimal(7), "7");
    assert_eq!(to_decimal(10), "10");
    assert_eq!(to_decimal(42), "42");
    assert_eq!(to_decimal(403), "403");
    assert_eq!(to_decimal(1048576), "1048576");
}

#[test]
fn decimal_of_the_largest_number() {
    assert_eq!(to_decimal(u64::MAX), "18446744073709551615");
}

#[test]
fn decimal_agrees_with_the_standard_library() {
    let mut n: u64 = 1;
    for _ in 0..64 {
        assert_eq!(to_decimal(n), n.to_string());
        assert_eq!(to_decimal(n - 1), (n - 1).to_string());
        n = n.wrapping_mul(3).wrapping_add(7);
    }
}

#[test]
fn push_decimal_appends() {
    let mut text = String::from("id=");
    push_decimal(&mut text, 2024);
    assert_eq!(text, "id=2024");
    push_decimal(&mut text, 0);
    assert_eq!(text, "id=20240");
}
