use check_sysstat_cpu::range::{get_cpu_status, parse_range_string, possible_range, range_values};
use check_sysstat_cpu::text::{
    chars_of, i64_to_string, parse_i32, parse_i64, parse_u32, parse_usize, split_at_char,
    split_words, trim_chars, usize_to_string,
};

fn chars(s: &str) -> Vec<char> {
    s.chars().collect()
}

#[test]
fn parse_usize_reads_like_std() {
    for s in ["0", "42", "+7", "-1", "", "+", "12a", " 3", "18446744073709551615", "18446744073709551616"] {
        assert_eq!(parse_usize(&chars(s)), s.parse::<usize>().ok(), "{:?}", s);
    }
}

#[test]
fn parse_signed_and_u32_read_like_std() {
    for s in ["0", "-0", "-9223372036854775808", "9223372036854775807", "9223372036854775808", "-", "+-1", "-12"] {
        assert_eq!(parse_i64(&chars(s)), s.parse::<i64>().ok(), "{:?}", s);
    }
    for s in ["2147483647", "2147483648", "-2147483648", "-2147483649", "x"] {
        assert_eq!(parse_i32(&chars(s)), s.parse::<i32>().ok(), "{:?}", s);
    }
    for s in ["4294967295", "4294967296", "-1", "17"] {
        assert_eq!(parse_u32(&chars(s)), s.parse::<u32>().ok(), "{:?}", s);
    }
}

#[test]
fn numbers_written_out() {
    assert_eq!(i64_to_string(-1234), "-1234");
    assert_eq!(i64_to_string(i64::MIN), i64::MIN.to_string());
    assert_eq!(usize_to_string(0), "0");
    assert_eq!(usize_to_string(9876543210), "9876543210");
}

#[test]
fn number_written_reads_back() {
    for v in [0i64, 7, -7, 1_000_000, i64::MAX, i64::MIN] {
        assert_eq!(parse_i64(&chars(&i64_to_string(v))), Some(v));
    }
}

#[test]
fn splitting_and_trimming() {
    let parts = split_at_char(&chars("a::b"), ':');
    assert_eq!(parts, vec![chars("a"), chars(""), chars("b")]);
    let ws = split_words(&chars("  cpu0  12\t3 \n"));
    assert_eq!(ws, vec![chars("cpu0"), chars("12"), chars("3")]);
    assert_eq!(trim_chars(&chars(" \t x y \u{3000}")), chars("x y"));
    assert_eq!(chars_of("h\u{e9}!"), vec!['h', '\u{e9}', '!']);
}

#[test]
fn range_string_lists_ranges_and_singles() {
    assert_eq!(parse_range_string("0-3,5,7-8"), vec![0, 1, 2, 3, 5, 7, 8]);
    assert_eq!(parse_range_string("4"), vec![4]);
    assert_eq!(parse_range_string("5-3"), Vec::<usize>::new());
    assert_eq!(parse_range_string("+2-+3"), vec![2, 3]);
}

#[test]
fn range_string_refusals() {
    assert_eq!(range_values(""), None);
    assert_eq!(range_values("1-2-3"), None);
    assert_eq!(range_values("1,,2"), None);
    assert_eq!(range_values("a"), None);
    assert_eq!(range_values("-1"), None);
    assert_eq!(range_values("0-3,8"), Some(vec![0, 1, 2, 3, 8]));
}

#[test]
fn range_lists_join_at_commas() {
    let a = range_values("0-2").unwrap();
    let b = range_values("7,9-10").unwrap();
    let joined = range_values("0-2,7,9-10").unwrap();
    assert_eq!(joined, [a, b].concat());
}

#[test]
fn cpu_status_marks_online_cpus() {
    assert_eq!(possible_range(" 0-3\n"), Some((0, 3)));
    assert_eq!(possible_range("0"), None);
    assert_eq!(possible_range("0-x"), None);
    assert_eq!(possible_range("2-5-9"), Some((2, 5)));
    let status = get_cpu_status("0-3", "0-1,3");
    assert_eq!(status, vec![(0, true), (1, true), (2, false), (3, true)]);
    for w in status.windows(2) {
        assert!(w[0].0 < w[1].0);
    }
}
