use login_server::text::chars_of;
use login_server::text::parse_bool;
use login_server::text::parse_i64;
use login_server::text::split;
use login_server::text::str_equal;

#[test]
fn chars_of_keeps_order() {
    assert_eq!(chars_of(""), Vec::<char>::new());
    assert_eq!(chars_of("a,b"), vec!['a', ',', 'b']);
    assert_eq!(chars_of("né"), vec!['n', 'é']);
}

#[test]
fn str_equal_compares_contents() {
    assert!(str_equal("", ""));
    assert!(str_equal("all", "all"));
    assert!(!str_equal("all", "All"));
    assert!(!str_equal("all", "all "));
}

#[test]
fn split_keeps_empty_pieces() {
    assert_eq!(split("", ','), vec![""]);
    assert_eq!(split("a", ','), vec!["a"]);
    assert_eq!(split("a,b", ','), vec!["a", "b"]);
    assert_eq!(split(",a,,b,", ','), vec!["", "a", "", "b", ""]);
    assert_eq!(split(",", ','), vec!["", ""]);
    assert_eq!(split("XI_MAIN_FOO_BAR", '_'), vec!["XI", "MAIN", "FOO", "BAR"]);
    assert_eq!(split("é,ü", ','), vec!["é", "ü"]);
}

#[test]
fn split_agrees_with_std() {
    for text in ["", ",", "a,b,c", ",,x,,", "no separator", "10.0.0.0/8, 1.2.3.4"] {
        let expected: Vec<String> = text.split(',').map(|s| s.to_string()).collect();
        assert_eq!(split(text, ','), expected);
    }
}

#[test]
fn parse_i64_reads_decimal() {
    assert_eq!(parse_i64("0"), Some(0));
    assert_eq!(parse_i64("9999"), Some(9999));
    assert_eq!(parse_i64("-1"), Some(-1));
    assert_eq!(parse_i64("+17"), Some(17));
    assert_eq!(parse_i64("-0"), Some(0));
    assert_eq!(parse_i64("007"), Some(7));
    assert_eq!(parse_i64("9223372036854775807"), Some(i64::MAX));
    assert_eq!(parse_i64("-9223372036854775808"), Some(i64::MIN));
}

#[test]
fn parse_i64_rejects_other_texts() {
    assert_eq!(parse_i64(""), None);
    assert_eq!(parse_i64("-"), None);
    assert_eq!(parse_i64("+"), None);
    assert_eq!(parse_i64("+-1"), None);
    assert_eq!(parse_i64("1 "), None);
    assert_eq!(parse_i64(" 1"), None);
    assert_eq!(parse_i64("1.0"), None);
    assert_eq!(parse_i64("1e3"), None);
    assert_eq!(parse_i64("0x10"), None);
    assert_eq!(parse_i64("12a"), None);
    assert_eq!(parse_i64("９"), None);
    assert_eq!(parse_i64("9223372036854775808"), None);
    assert_eq!(parse_i64("-9223372036854775809"), None);
    assert_eq!(parse_i64("99999999999999999999999999"), None);
    assert_eq!(parse_i64("99999999999999999999999999x"), None);
}

#[test]
fn parse_i64_agrees_with_std() {
    for text in [
        "", "-", "+", "0", "-0", "+0", "42", "-42", "+42", "0042", "4 2", "9223372036854775807",
        "9223372036854775808", "-9223372036854775808", "-9223372036854775809", "18446744073709551616",
        "abc", "1_000", "--1", "1-",
    ] {
        assert_eq!(parse_i64(text), text.parse::<i64>().ok(), "{:?}", text);
    }
}

#[test]
fn parse_bool_reads_true_and_false_only() {
    assert_eq!(parse_bool("true"), Some(true));
    assert_eq!(parse_bool("false"), Some(false));
    assert_eq!(parse_bool("True"), None);
    assert_eq!(parse_bool("1"), None);
    assert_eq!(parse_bool(""), None);
    assert_eq!(parse_bool("false "), None);
}
