use causpan::collection::is_blank;
use causpan::collection::record_lines;
use causpan::number::decimal_text;
use causpan::number::push_padded3;
use causpan::number::push_signed;
use causpan::number::read_signed;
use causpan::number::read_unsigned;
use causpan::number::NumberError;
use causpan::sorting::count_up_to;
use causpan::sorting::reversed;
use causpan::sorting::stable_sort;
use causpan::text::chars_of;
use causpan::text::comes_before;
use causpan::text::is_white_space;
use causpan::text::lines_of;
use causpan::text::same_text;
use causpan::text::split_text;
use causpan::text::starts_with;
use causpan::text::string_of;
use causpan::text::trim_text;
use causpan::text::unquote_text;
use causpan::text::words_of;

fn signed_text(n: i64) -> String {
    let mut out = String::new();
    push_signed(&mut out, n);
    out
}

fn padded_text(n: u64) -> String {
    let mut out = String::new();
    push_padded3(&mut out, n);
    out
}

#[test]
fn characters_make_up_their_text() {
    let v = chars_of("aé—z");
    assert_eq!(v, vec!['a', 'é', '—', 'z']);
    assert_eq!(string_of(&v, 1, 3), "é—");
    assert_eq!(string_of(&v, 2, 2), "");
}

#[test]
fn white_space_is_that_of_std() {
    for n in 0..=0x10ffffu32 {
        if let Some(c) = char::from_u32(n) {
            assert_eq!(is_white_space(c), c.is_whitespace(), "{:?}", c);
        }
    }
}

#[test]
fn splitting_agrees_with_std() {
    for s in ["", ",", "a", "a,b", ",a,,b,", "é,—"] {
        let expected: Vec<String> = s.split(',').map(|p| p.to_string()).collect();
        assert_eq!(split_text(s, ','), expected);
    }
}

#[test]
fn lines_agree_with_std() {
    for s in ["", "\n", "a", "a\n", "a\nb", "a\r\nb\r\n", "a\r", "\r\n\r\n", "a\n\n\nb\r", "\r\r\n"] {
        let expected: Vec<String> = s.lines().map(|p| p.to_string()).collect();
        assert_eq!(lines_of(s), expected, "{:?}", s);
    }
}

#[test]
fn trimming_agrees_with_std() {
    for s in ["", " ", "a", " a ", "\t a b\u{a0}\u{3000}\n", "\"a\"", " \"\"a\" "] {
        assert_eq!(trim_text(s), s.trim());
        assert_eq!(unquote_text(s), s.trim_matches('"'));
    }
}

#[test]
fn words_agree_with_std() {
    for s in ["", " ", "Tgid:\t42", "  a  b\u{2003}c ", "one"] {
        let expected: Vec<String> = s.split_whitespace().map(|p| p.to_string()).collect();
        assert_eq!(words_of(s), expected);
    }
}

#[test]
fn comparisons_agree_with_std() {
    let all = ["", "a", "b", "aa", "ab", "pid", "pid_tid", "time_window_10ms", "time_window_1ms", "é", "\u{10000}", "\u{ffff}"];
    for a in all {
        for b in all {
            assert_eq!(same_text(a, b), a == b);
            assert_eq!(comes_before(a, b), a < b, "{:?} {:?}", a, b);
            assert_eq!(starts_with(a, b), a.starts_with(b));
        }
    }
}

#[test]
fn numbers_are_written_as_std_writes_them() {
    for n in [0, 9, 10, 99, 100, 999, 1000, 12345678901234567890, u64::MAX] {
        assert_eq!(decimal_text(n), n.to_string());
        assert_eq!(padded_text(n), format!("{:03}", n));
    }
    for n in [0, 7, -7, i64::MAX, i64::MIN] {
        assert_eq!(signed_text(n), n.to_string());
    }
}

#[test]
fn written_numbers_read_back() {
    for n in [0, 1, 10, 4294967295, 4294967296, u64::MAX] {
        assert_eq!(read_unsigned(&decimal_text(n), u64::MAX), Ok(n));
    }
}

#[test]
fn different_numbers_have_different_texts() {
    let mut seen: Vec<String> = Vec::new();
    for n in 0..1200u64 {
        let t = padded_text(n);
        assert!(!seen.contains(&t));
        seen.push(t);
    }
}

#[test]
fn unsigned_numbers_are_read_as_std_reads_them() {
    let all = [
        "", "+", "-", "0", "+0", "-0", "12", "+12", "-12", "1 2", " 12", "4294967295", "4294967296",
        "99999999999999999999", "0x1", "٣", "++1", "000000000000000000000000012",
    ];
    for s in all {
        let expected = s.parse::<u32>();
        match read_unsigned(s, u32::MAX as u64) {
            Ok(n) => assert_eq!(expected, Ok(n as u32), "{:?}", s),
            Err(e) => assert_eq!(expected.unwrap_err().to_string(), e.message(), "{:?}", s),
        }
    }
}

#[test]
fn signed_numbers_are_read_as_std_reads_them() {
    let all = [
        "", "+", "-", "0", "-1", "+1", "ff", "-ff", "FF", "xyz", "9223372036854775807",
        "9223372036854775808", "-9223372036854775808", "-9223372036854775809", "7fffffffffffffff",
        "ffffffffffffffff",
    ];
    for s in all {
        for radix in [10u32, 16] {
            let expected = i64::from_str_radix(s, radix);
            match read_signed(s, 0, radix) {
                Ok(n) => assert_eq!(expected, Ok(n), "{:?}", s),
                Err(e) => assert_eq!(expected.unwrap_err().to_string(), e.message(), "{:?}", s),
            }
        }
    }
    assert_eq!(read_signed("0x1f", 2, 16), Ok(31));
}

#[test]
fn number_errors_are_told_apart() {
    assert_eq!(read_unsigned("", 9), Err(NumberError::Empty));
    assert_eq!(read_unsigned("-1", 9), Err(NumberError::InvalidDigit));
    assert_eq!(read_unsigned("10", 9), Err(NumberError::PosOverflow));
    assert_eq!(read_signed("-9223372036854775809", 0, 10), Err(NumberError::NegOverflow));
    assert_eq!(NumberError::Empty.message(), "cannot parse integer from empty string");
    assert_eq!(NumberError::InvalidDigit.message(), "invalid digit found in string");
    assert_eq!(NumberError::PosOverflow.message(), "number too large to fit in target type");
    assert_eq!(NumberError::NegOverflow.message(), "number too small to fit in target type");
}

#[test]
fn sorting_is_stable_and_keeps_entries() {
    let input = vec![(5u64, 'a'), (1, 'b'), (5, 'c'), (0, 'd'), (1, 'e'), (5, 'f')];
    let out = stable_sort(input.clone());
    assert_eq!(out, vec![(0, 'd'), (1, 'b'), (1, 'e'), (5, 'a'), (5, 'c'), (5, 'f')]);
    let mut expected = input.clone();
    expected.sort_by_key(|e| e.0);
    assert_eq!(out, expected);
    for e in &input {
        assert!(out.contains(e));
    }
    assert_eq!(count_up_to(&out, 1), 3);
    assert_eq!(count_up_to(&out, 4), 3);
    assert_eq!(count_up_to(&out, 5), 6);
    assert_eq!(reversed(vec![1, 2, 3]), vec![3, 2, 1]);
    assert_eq!(stable_sort(Vec::<(u64, u8)>::new()), vec![]);
}

#[test]
fn blank_lines_are_no_records() {
    assert!(is_blank(""));
    assert!(is_blank(" \t\r"));
    assert!(!is_blank(" {} "));
    let ls = vec!["{}".to_string(), "".to_string(), "  ".to_string(), "{\"a\":1}".to_string()];
    assert_eq!(record_lines(&ls), vec![0, 3]);
}
