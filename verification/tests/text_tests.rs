use file_gateway::text::{
    chars_of, copy_range, decimal_string, extend_chars, find_from, has_prefix, parse_u64,
    push_decimal, same_chars, string_of,
};

#[test]
fn chars_and_strings_convert_both_ways() {
    let v = chars_of("héllo/ß");
    assert_eq!(v, vec!['h', 'é', 'l', 'l', 'o', '/', 'ß']);
    assert_eq!(string_of(&v), "héllo/ß");
    assert_eq!(string_of(&chars_of("")), "");
}

#[test]
fn extend_and_copy_keep_order() {
    let mut out = chars_of("ab");
    extend_chars(&mut out, &chars_of("cd"));
    assert_eq!(string_of(&out), "abcd");
    assert_eq!(string_of(&copy_range(&out, 1, 3)), "bc");
    assert_eq!(string_of(&copy_range(&out, 2, 2)), "");
}

#[test]
fn same_chars_and_has_prefix_compare() {
    assert!(same_chars(&chars_of("abc"), &chars_of("abc")));
    assert!(!same_chars(&chars_of("abc"), &chars_of("abd")));
    assert!(!same_chars(&chars_of("abc"), &chars_of("ab")));
    assert!(has_prefix(&chars_of("abc"), &chars_of("ab")));
    assert!(has_prefix(&chars_of("abc"), &chars_of("")));
    assert!(has_prefix(&chars_of("abc"), &chars_of("abc")));
    assert!(!has_prefix(&chars_of("abc"), &chars_of("abcd")));
    assert!(!has_prefix(&chars_of("abc"), &chars_of("b")));
}

#[test]
fn find_from_gives_the_first_place() {
    let v = chars_of("a-b-c");
    assert_eq!(find_from(&v, 0, '-'), 1);
    assert_eq!(find_from(&v, 1, '-'), 1);
    assert_eq!(find_from(&v, 2, '-'), 3);
    assert_eq!(find_from(&v, 4, '-'), 5);
    assert_eq!(find_from(&v, 5, '-'), 5);
}

#[test]
fn parse_u64_reads_what_std_reads() {
    for text in [
        "", "0", "7", "+7", "-7", "+", "007", "12a", "a12", " 12", "12 ", "1_2",
        "18446744073709551615", "18446744073709551616", "99999999999999999999999",
        "+18446744073709551615", "++1", "+-1", "１２",
    ] {
        let v = chars_of(text);
        assert_eq!(parse_u64(&v, 0, v.len()), text.parse::<u64>().ok(), "{:?}", text);
    }
}

#[test]
fn parse_u64_reads_a_part() {
    let v = chars_of("ab123cd");
    assert_eq!(parse_u64(&v, 2, 5), Some(123));
    assert_eq!(parse_u64(&v, 2, 2), None);
    assert_eq!(parse_u64(&v, 1, 5), None);
}

#[test]
fn decimal_string_writes_what_std_writes() {
    for n in [0u64, 1, 9, 10, 11, 99, 100, 12345, 4294967296, u64::MAX] {
        assert_eq!(decimal_string(n), n.to_string());
    }
}

#[test]
fn push_decimal_appends() {
    let mut out = chars_of("n=");
    push_decimal(&mut out, 1020);
    assert_eq!(string_of(&out), "n=1020");
}
