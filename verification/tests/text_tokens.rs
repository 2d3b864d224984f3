use scene_layout::text::{check_constant, decimal_of_i32, push_decimal_digits};

fn decimal_of_u32(n: u32) -> String {
    let mut s = String::new();
    push_decimal_digits(&mut s, n);
    s
}

#[test]
fn decimal_numerals_of_unsigned_numbers() {
    assert_eq!(decimal_of_u32(0), "0");
    assert_eq!(decimal_of_u32(7), "7");
    assert_eq!(decimal_of_u32(10), "10");
    assert_eq!(decimal_of_u32(1234567890), "1234567890");
    assert_eq!(decimal_of_u32(u32::MAX), "4294967295");
}

#[test]
fn decimal_numerals_of_signed_numbers() {
    assert_eq!(decimal_of_i32(0), "0");
    assert_eq!(decimal_of_i32(42), "42");
    assert_eq!(decimal_of_i32(-42), "-42");
    assert_eq!(decimal_of_i32(i32::MAX), "2147483647");
    assert_eq!(decimal_of_i32(i32::MIN), "-2147483648");
}

#[test]
fn decimal_numerals_agree_with_formatting() {
    let mut n: u32 = 1;
    for _ in 0..2000 {
        n = n.wrapping_mul(1664525).wrapping_add(1013904223);
        assert_eq!(decimal_of_u32(n), format!("{}", n));
        assert_eq!(decimal_of_i32(n as i32), format!("{}", n as i32));
    }
}

#[test]
fn digits_are_appended_to_what_is_there() {
    let mut s = String::from("chair");
    push_decimal_digits(&mut s, 905);
    assert_eq!(s, "chair905");
}

#[test]
fn constants_start_with_a_lowercase_letter() {
    assert!(check_constant("chair"));
    assert!(check_constant("a"));
    assert!(check_constant("chair42"));
    assert!(check_constant("big_Table'"));
    assert!(check_constant("__x9"));
}

#[test]
fn what_is_no_constant() {
    assert!(!check_constant(""));
    assert!(!check_constant("_"));
    assert!(!check_constant("___"));
    assert!(!check_constant("Chair"));
    assert!(!check_constant("9lives"));
    assert!(!check_constant("_9"));
    assert!(!check_constant("chair-42"));
    assert!(!check_constant("two words"));
    assert!(!check_constant("caf\u{e9}"));
    assert!(!check_constant("a\0b"));
    assert!(!check_constant("'a"));
    assert!(!check_constant("a_b(c)"));
}
