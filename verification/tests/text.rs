use proxy_core::like::{is_like, part_is_like};
use proxy_core::number::{
    decimal_text, divide_rounding, parse_i32, parse_i64, parse_u64, signed_decimal_text,
    to_nearest_double, to_signed, to_unsigned, zero_pad,
};
use proxy_core::order::text_before;
use proxy_core::outside::header::visible_text;
use proxy_core::size::{format_bytes, format_size, split_size};
use proxy_core::text::{
    byte_len, contains, ends_with, first_word_of, join, lines, same, split, split_last, split_once,
    starts_with, strip_prefix, strip_suffix, to_lower, trim,
};

const SAMPLES: [&str; 14] = [
    "", "a", " a ", "\ta\u{a0}", "a b", "a,b,,c", ",", "x=y=z", "\n", "a\nb", "a\r\nb\n", "\r\n\r\n",
    "äö\u{3000}ü", "a\rb\n",
];

#[test]
fn texts_are_taken_apart_as_by_the_standard_library() {
    for s in SAMPLES {
        assert_eq!(trim(s), s.trim());
        assert_eq!(lines(s), s.lines().map(|l| l.to_string()).collect::<Vec<_>>());
        assert_eq!(first_word_of(s), s.split_whitespace().next().map(|w| w.to_string()));
        assert_eq!(byte_len(s), s.len());
        for c in [',', '=', 'a', '\n'] {
            assert_eq!(split(s, c), s.split(c).map(|l| l.to_string()).collect::<Vec<_>>());
            assert_eq!(
                split_once(s, c),
                s.split_once(c).map(|(x, y)| (x.to_string(), y.to_string()))
            );
            let last = s.rfind(c).map(|i| (s[..i].to_string(), s[i..].to_string()));
            assert_eq!(split_last(s, c), last);
        }
        for t in SAMPLES {
            assert_eq!(same(s, t), s == t);
            assert_eq!(contains(s, t), s.contains(t));
            assert_eq!(starts_with(s, t), s.starts_with(t));
            assert_eq!(ends_with(s, t), s.ends_with(t));
            assert_eq!(strip_prefix(s, t), s.strip_prefix(t).map(|x| x.to_string()));
            assert_eq!(strip_suffix(s, t), s.strip_suffix(t).map(|x| x.to_string()));
            assert_eq!(text_before(s, t), s <= t);
        }
    }
    let parts = vec!["a".to_string(), "".to_string(), "b".to_string()];
    assert_eq!(join(&parts, "&"), parts.join("&"));
    assert_eq!(join(&vec![], "&"), "");
}

#[test]
fn numbers_are_read_as_by_the_standard_library() {
    for s in [
        "", "0", "7", "+7", "-7", "--7", "+", "-", "00", "18446744073709551615", "18446744073709551616",
        "9223372036854775807", "9223372036854775808", "-9223372036854775808", "-9223372036854775809",
        "2147483647", "2147483648", "-2147483648", "-2147483649", "1a", " 1", "1 ", "١",
    ] {
        assert_eq!(parse_u64(s), s.parse::<u64>().ok(), "{}", s);
        assert_eq!(parse_i64(s), s.parse::<i64>().ok(), "{}", s);
        assert_eq!(parse_i32(s), s.parse::<i32>().ok(), "{}", s);
    }
}

#[test]
fn numbers_are_written_as_by_the_standard_library() {
    for n in [0u64, 9, 10, 12345, u64::MAX] {
        assert_eq!(decimal_text(n), n.to_string());
        assert_eq!(zero_pad(decimal_text(n), 12), format!("{:012}", n));
        assert_eq!(to_signed(n), n as i64);
    }
    for n in [0i64, -1, 7, i64::MIN, i64::MAX] {
        assert_eq!(signed_decimal_text(n), n.to_string());
        assert_eq!(to_unsigned(n), n as u64);
    }
}

fn numbers() -> Vec<u64> {
    let mut v = vec![0u64, 1, 2, 1023, 1024, 1025, 1048575, 1048576, 1073741823, 1073741824, u64::MAX];
    let mut x: u64 = 88172645463325252;
    for i in 0..3000 {
        x ^= x << 13;
        x ^= x >> 7;
        x ^= x << 17;
        v.push(x >> (i % 64));
    }
    v
}

#[test]
fn doubles_are_those_of_the_machine() {
    for n in numbers() {
        assert_eq!(to_nearest_double(n as u128), (n as f64) as u128, "{}", n);
        let wide = n as u128 * 8106479329266893;
        assert_eq!(to_nearest_double(wide), (wide as f64) as u128, "{}", wide);
    }
    assert_eq!(divide_rounding(5, 2), 2);
    assert_eq!(divide_rounding(7, 2), 4);
    assert_eq!(divide_rounding(8, 3), 3);
}

fn human(bytes: f64, exact: String) -> String {
    if bytes >= 1_073_741_824.0 {
        format!("{:.1} GB", bytes / 1_073_741_824.0)
    } else if bytes >= 1_048_576.0 {
        format!("{:.1} MB", bytes / 1_048_576.0)
    } else if bytes >= 1024.0 {
        format!("{:.1} KB", bytes / 1024.0)
    } else {
        exact
    }
}

#[test]
fn sizes_are_rounded_as_by_the_machine() {
    for n in numbers() {
        assert_eq!(format_bytes(n), human(n as f64, format!("{} B", n)), "{}", n);
        let m = n as i64;
        assert_eq!(format_size(m), human(m as f64, format!("{} B", m)), "{}", m);
    }
    assert_eq!(format_bytes(1536), "1.5 KB");
    assert_eq!(format_bytes(1_073_741_824), "1.0 GB");
    assert_eq!(format_size(-5), "-5 B");
}

#[test]
fn size_suffixes_are_multipliers() {
    for (s, num, by) in [
        ("1G", "1", 1_073_741_824u64),
        (" 2 g ", "2", 1_073_741_824),
        ("1GB", "1", 1_073_741_824),
        ("500M", "500", 1_048_576),
        ("500 m", "500", 1_048_576),
        ("5MB", "5", 1_048_576),
        ("7k", "7", 1024),
        ("7KB", "7", 1024),
        ("1.5K", "1.5", 1024),
        ("9", "9", 1),
        ("x", "x", 1),
        ("1gB", "1gB", 1),
    ] {
        assert_eq!(split_size(s), (num.to_string(), by), "{}", s);
    }
}

#[test]
fn patterns_match_as_in_a_search() {
    assert!(is_like("", ""));
    assert!(!is_like("", "a"));
    assert!(is_like("%", ""));
    assert!(is_like("a%c", "abbc"));
    assert!(!is_like("a%c", "abbd"));
    assert!(is_like("A_C", "abc"));
    assert!(!is_like("a_c", "ac"));
    assert!(is_like("%%a%", "bab"));
    assert!(!is_like("ä", "Ä"));
    assert!(part_is_like("B", "abc"));
    assert!(part_is_like("", ""));
    assert!(!part_is_like("d", "abc"));
    assert!(part_is_like("a\0zzz", "a"));
    assert!(!part_is_like("c", "ab\0c"));
}

#[test]
fn header_values_are_read_if_visible() {
    assert_eq!(visible_text(&b"a b\tc~".to_vec()), Some("a b\tc~".to_string()));
    assert_eq!(visible_text(&vec![]), Some(String::new()));
    assert_eq!(visible_text(&vec![0x7f]), None);
    assert_eq!(visible_text(&vec![0xe4]), None);
    assert_eq!(visible_text(&vec![31]), None);
}

#[test]
fn texts_are_lowered_as_by_the_standard_library() {
    assert_eq!(to_lower("Content-TYPE: [A-Z] 09_"), "content-type: [a-z] 09_");
    for s in ["", "ÄÖ", "ΟΔΟΣ", "İ", "@[`{"] {
        assert_eq!(to_lower(s), s.to_lowercase());
    }
}
