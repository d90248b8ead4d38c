use tar_light::tar::octal::{
    format_octal, parse_octal_chars, parse_octal_or_zero_chars, push_octal, push_octal_padded,
};

fn chars(s: &str) -> Vec<char> {
    s.chars().collect()
}

#[test]
fn format_octal_of_small_numbers() {
    assert_eq!(format_octal(0), b"0".to_vec());
    assert_eq!(format_octal(7), b"7".to_vec());
    assert_eq!(format_octal(8), b"10".to_vec());
    assert_eq!(format_octal(0o644), b"644".to_vec());
    assert_eq!(format_octal(12), b"14".to_vec());
    assert_eq!(format_octal(1000000), b"3641100".to_vec());
}

#[test]
fn format_octal_of_the_largest_number() {
    assert_eq!(format_octal(u64::MAX), b"1777777777777777777777".to_vec());
    assert_eq!(format_octal(u32::MAX as u64), b"37777777777".to_vec());
}

#[test]
fn format_octal_agrees_with_the_standard_formatter() {
    let mut n: u64 = 1;
    for _ in 0..2000 {
        assert_eq!(format_octal(n), format!("{:o}", n).into_bytes());
        n = n.wrapping_mul(6364136223846793005).wrapping_add(1442695040888963407);
    }
    for n in 0..5000u64 {
        assert_eq!(format_octal(n), format!("{:o}", n).into_bytes());
    }
}

#[test]
fn push_octal_appends() {
    let mut out = b"x=".to_vec();
    push_octal(&mut out, 0o755);
    assert_eq!(out, b"x=755".to_vec());
}

#[test]
fn push_octal_padded_fills_with_zeros() {
    let mut out = Vec::new();
    push_octal_padded(&mut out, 0o644, 6);
    assert_eq!(out, b"000644".to_vec());
    let mut zero = Vec::new();
    push_octal_padded(&mut zero, 0, 6);
    assert_eq!(zero, b"000000".to_vec());
    let mut full = Vec::new();
    push_octal_padded(&mut full, 130560, 6);
    assert_eq!(full, b"377000".to_vec());
}

#[test]
fn push_octal_padded_agrees_with_the_standard_formatter() {
    for n in 0..=130560u64 {
        let mut out = Vec::new();
        push_octal_padded(&mut out, n, 6);
        assert_eq!(out, format!("{:06o}", n).into_bytes());
    }
}

#[test]
fn push_octal_padded_drops_the_digits_above_the_width() {
    let mut out = Vec::new();
    push_octal_padded(&mut out, 0o1234567, 4);
    assert_eq!(out, b"4567".to_vec());
    let mut none = b"ab".to_vec();
    push_octal_padded(&mut none, 5, 0);
    assert_eq!(none, b"ab".to_vec());
}

#[test]
fn parse_octal_reads_digits() {
    assert_eq!(parse_octal_chars(&chars("644"), u64::MAX), Some(420));
    assert_eq!(parse_octal_chars(&chars("0000644"), u64::MAX), Some(420));
    assert_eq!(parse_octal_chars(&chars("0"), u64::MAX), Some(0));
    assert_eq!(parse_octal_chars(&chars("14"), u64::MAX), Some(12));
}

#[test]
fn parse_octal_takes_one_leading_plus() {
    assert_eq!(parse_octal_chars(&chars("+17"), u64::MAX), Some(15));
    assert_eq!(parse_octal_chars(&chars("++17"), u64::MAX), None);
    assert_eq!(parse_octal_chars(&chars("+"), u64::MAX), None);
}

#[test]
fn parse_octal_refuses_what_is_no_number() {
    assert_eq!(parse_octal_chars(&chars(""), u64::MAX), None);
    assert_eq!(parse_octal_chars(&chars("-"), u64::MAX), None);
    assert_eq!(parse_octal_chars(&chars("-17"), u64::MAX), None);
    assert_eq!(parse_octal_chars(&chars("8"), u64::MAX), None);
    assert_eq!(parse_octal_chars(&chars("12a"), u64::MAX), None);
    assert_eq!(parse_octal_chars(&chars("1 2"), u64::MAX), None);
    assert_eq!(parse_octal_chars(&chars("644\0"), u64::MAX), None);
    assert_eq!(parse_octal_chars(&chars("1_0"), u64::MAX), None);
    assert_eq!(parse_octal_chars(&chars("\u{ff11}"), u64::MAX), None);
}

#[test]
fn parse_octal_refuses_what_is_above_the_limit() {
    assert_eq!(parse_octal_chars(&chars("37777777777"), u32::MAX as u64), Some(u32::MAX as u64));
    assert_eq!(parse_octal_chars(&chars("40000000000"), u32::MAX as u64), None);
    assert_eq!(parse_octal_chars(&chars("1777777777777777777777"), u64::MAX), Some(u64::MAX));
    assert_eq!(parse_octal_chars(&chars("2000000000000000000000"), u64::MAX), None);
    assert_eq!(parse_octal_chars(&chars("17777777777777777777770"), u64::MAX), None);
    assert_eq!(parse_octal_chars(&chars("11"), 8), None);
    assert_eq!(parse_octal_chars(&chars("10"), 8), Some(8));
}

#[test]
fn parse_octal_or_zero_defaults_to_zero() {
    assert_eq!(parse_octal_or_zero_chars(&chars(""), u64::MAX), 0);
    assert_eq!(parse_octal_or_zero_chars(&chars("xyz"), u64::MAX), 0);
    assert_eq!(parse_octal_or_zero_chars(&chars("9"), u64::MAX), 0);
    assert_eq!(parse_octal_or_zero_chars(&chars("40000000000"), u32::MAX as u64), 0);
    assert_eq!(parse_octal_or_zero_chars(&chars("755"), u64::MAX), 493);
}

#[test]
fn parse_octal_agrees_with_the_standard_parser() {
    let samples = [
        "", "0", "7", "8", "+", "-", "+0", "-0", "+7", "00", "007", "644", "0644", "+644", "-644",
        " 644", "644 ", "6 44", "0o644", "0x1f", "1e3", "777777777777", "37777777777",
        "40000000000", "1777777777777777777777", "2000000000000000000000", "٣", "１２", "6４4",
        "+-1", "++1", "1+", "\0", "644\0",
    ];
    for s in samples {
        let text: Vec<char> = s.chars().collect();
        let wide = u64::from_str_radix(s, 8).ok();
        assert_eq!(parse_octal_chars(&text, u64::MAX), wide, "{:?}", s);
        let narrow = u32::from_str_radix(s, 8).ok().map(|v| v as u64);
        assert_eq!(parse_octal_chars(&text, u32::MAX as u64), narrow, "{:?}", s);
    }
}

#[test]
fn parse_octal_reads_back_what_format_octal_writes() {
    let mut n: u64 = 3;
    for _ in 0..2000 {
        let text: Vec<char> = format_octal(n).iter().map(|&b| b as char).collect();
        assert_eq!(parse_octal_chars(&text, u64::MAX), Some(n));
        n = n.wrapping_mul(6364136223846793005).wrapping_add(1442695040888963407);
    }
}
