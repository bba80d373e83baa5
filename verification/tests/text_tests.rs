use c_compiler::text::{chars_to_string, i32_to_string, is_digit, read_i32, str_eq, u64_to_string};

fn s(x: &str) -> String {
    String::from(x)
}

#[test]
fn renders_naturals_in_decimal() {
    assert_eq!(u64_to_string(0), s("0"));
    assert_eq!(u64_to_string(7), s("7"));
    assert_eq!(u64_to_string(120), s("120"));
    assert_eq!(u64_to_string(18446744073709551615), s("18446744073709551615"));
}

#[test]
fn renders_signed_integers_in_decimal() {
    assert_eq!(i32_to_string(0), s("0"));
    assert_eq!(i32_to_string(-1), s("-1"));
    assert_eq!(i32_to_string(2147483647), s("2147483647"));
    assert_eq!(i32_to_string(i32::MIN), s("-2147483648"));
}

#[test]
fn reads_digit_runs_back() {
    assert_eq!(read_i32(false, &vec!['4', '2']), Some(42));
    assert_eq!(read_i32(true, &vec!['4', '2']), Some(-42));
    assert_eq!(read_i32(false, &vec!['0', '0', '7']), Some(7));
    assert_eq!(read_i32(false, &vec!['2', '1', '4', '7', '4', '8', '3', '6', '4', '8']), None);
    assert_eq!(
        read_i32(true, &vec!['2', '1', '4', '7', '4', '8', '3', '6', '4', '8']),
        Some(i32::MIN)
    );
}

#[test]
fn builds_strings_from_characters() {
    assert_eq!(chars_to_string(&vec!['a', 'b', 'c']), s("abc"));
    assert_eq!(chars_to_string(&vec![]), s(""));
}

#[test]
fn compares_strings_by_characters() {
    assert!(str_eq("abc", "abc"));
    assert!(!str_eq("abc", "abd"));
    assert!(!str_eq("abc", "ab"));
    assert!(str_eq("", ""));
}

#[test]
fn classifies_digits() {
    assert!(is_digit('0'));
    assert!(is_digit('9'));
    assert!(!is_digit('a'));
    assert!(!is_digit('.'));
}
