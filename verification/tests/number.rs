use toml2lua::get_indent;
use toml2lua::integer_text;

#[test]
fn small_integers() {
    assert_eq!(integer_text(0), "0");
    assert_eq!(integer_text(1), "1");
    assert_eq!(integer_text(-1), "-1");
    assert_eq!(integer_text(9), "9");
    assert_eq!(integer_text(10), "10");
    assert_eq!(integer_text(-10), "-10");
    assert_eq!(integer_text(420), "420");
    assert_eq!(integer_text(12345), "12345");
    assert_eq!(integer_text(1000000), "1000000");
}

#[test]
fn the_ends_of_the_range() {
    assert_eq!(integer_text(i64::MAX), "9223372036854775807");
    assert_eq!(integer_text(i64::MIN), "-9223372036854775808");
    assert_eq!(integer_text(i64::MIN + 1), "-9223372036854775807");
    assert_eq!(integer_text(i64::MAX - 1), "9223372036854775806");
}

#[test]
fn agrees_with_the_standard_formatting() {
    let values: [i64; 12] = [
        0,
        -0,
        7,
        -7,
        99,
        100,
        -101,
        65536,
        -4294967296,
        1234567890123456789,
        i64::MIN,
        i64::MAX,
    ];
    for value in values {
        assert_eq!(integer_text(value), value.to_string());
    }
}

#[test]
fn the_text_reads_back_as_the_integer() {
    let values: [i64; 7] = [0, 1, -1, 42, -9000, i64::MIN, i64::MAX];
    for value in values {
        assert_eq!(integer_text(value).parse::<i64>(), Ok(value));
    }
}

#[test]
fn no_leading_zero_and_no_plus_sign() {
    let values: [i64; 5] = [5, 50, 500, -5, -500];
    for value in values {
        let text = integer_text(value);
        let digits = text.trim_start_matches('-');
        assert!(!digits.starts_with('0'));
        assert!(!text.starts_with('+'));
        assert_eq!(text.starts_with('-'), value < 0);
    }
}

#[test]
fn indentation_is_tabs_only() {
    assert_eq!(get_indent(0), "");
    assert_eq!(get_indent(1), "\t");
    assert_eq!(get_indent(2), "\t\t");
    assert_eq!(get_indent(5), "\t\t\t\t\t");
    assert_eq!(get_indent(100).len(), 100);
    assert!(get_indent(100).chars().all(|c| c == '\t'));
}
