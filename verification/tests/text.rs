use fstab::number::{decimal_text, parse_u16_text};
use fstab::text::{char_is_whitespace, has_prefix, is_char, join_text, split_fields, split_text};
use fstab::IntegerFault;

fn strings(parts: &[&str]) -> Vec<String> {
    parts.iter().map(|s| s.to_string()).collect()
}

#[test]
fn whitespace_is_what_unicode_says() {
    let mut code: u32 = 0;
    while code <= 0x10FFFF {
        if let Some(c) = char::from_u32(code) {
            assert_eq!(char_is_whitespace(c), c.is_whitespace(), "U+{:04X}", code);
        }
        code += 1;
    }
}

#[test]
fn whitespace_named_cases() {
    assert!(char_is_whitespace(' '));
    assert!(char_is_whitespace('\t'));
    assert!(char_is_whitespace('\n'));
    assert!(char_is_whitespace('\r'));
    assert!(char_is_whitespace('\u{3000}'));
    assert!(!char_is_whitespace('a'));
    assert!(!char_is_whitespace('#'));
    assert!(!char_is_whitespace('\u{200B}'));
}

#[test]
fn split_keeps_every_character() {
    assert_eq!(split_text("ab", ','), strings(&["ab"]));
    assert_eq!(split_text("defaults,ro", ','), strings(&["defaults", "ro"]));
}

#[test]
fn split_keeps_empty_pieces() {
    assert_eq!(split_text("", ','), strings(&[""]));
    assert_eq!(split_text(",", ','), strings(&["", ""]));
    assert_eq!(split_text("a,,b", ','), strings(&["a", "", "b"]));
    assert_eq!(split_text(",a,", ','), strings(&["", "a", ""]));
    assert_eq!(split_text("a;b", ','), strings(&["a;b"]));
}

#[test]
fn split_agrees_with_std() {
    for text in ["", "a", ",", "a,b", "a,,b", ",,", "noatime,errors=remount-ro", "é,ü,,"] {
        let expected: Vec<String> = text.split(',').map(|s| s.to_string()).collect();
        assert_eq!(split_text(text, ','), expected, "{:?}", text);
    }
    for text in ["", "one\ntwo", "one\ntwo\n", "\n\n", "no line feed"] {
        let expected: Vec<String> = text.split('\n').map(|s| s.to_string()).collect();
        assert_eq!(split_text(text, '\n'), expected, "{:?}", text);
    }
}

#[test]
fn fields_are_the_runs_between_whitespace() {
    assert_eq!(split_fields(""), strings(&[]));
    assert_eq!(split_fields("   \t\n"), strings(&[]));
    assert_eq!(split_fields("a"), strings(&["a"]));
    assert_eq!(split_fields("  a  b\tc\n"), strings(&["a", "b", "c"]));
    assert_eq!(split_fields("a\u{3000}b\u{a0}c"), strings(&["a", "b", "c"]));
}

#[test]
fn fields_agree_with_std() {
    for text in [
        "",
        " ",
        "a",
        " a",
        "a ",
        "/dev/sda1 / ext4 defaults 0 1\n",
        "UUID=378f /boot           ext2    defaults        0       2",
        "\tone\u{2003}two\r\n",
        "x\u{85}y\u{1680}z",
    ] {
        let expected: Vec<String> = text.split_whitespace().map(|s| s.to_string()).collect();
        assert_eq!(split_fields(text), expected, "{:?}", text);
    }
}

#[test]
fn join_puts_the_separator_between() {
    assert_eq!(join_text(&strings(&[]), ","), "");
    assert_eq!(join_text(&strings(&["a"]), ","), "a");
    assert_eq!(join_text(&strings(&["a", "b", "c"]), ","), "a,b,c");
    assert_eq!(join_text(&strings(&["", ""]), ";"), ";");
    assert_eq!(join_text(&strings(&["a", "b"]), ", "), "a, b");
}

#[test]
fn join_gives_back_what_was_split() {
    for text in ["", "a", ",", "a,b", "a,,b", ",,", "defaults,ro"] {
        assert_eq!(join_text(&split_text(text, ','), ","), text);
    }
}

#[test]
fn split_gives_back_what_was_joined() {
    let parts = strings(&["rw", "", "nosuid"]);
    assert_eq!(split_text(&join_text(&parts, ","), ','), parts);
}

#[test]
fn prefix_is_told() {
    assert!(has_prefix("/dev/sda", "/dev/"));
    assert!(has_prefix("/dev/", "/dev/"));
    assert!(has_prefix("anything", ""));
    assert!(!has_prefix("/dev", "/dev/"));
    assert!(!has_prefix("x/dev/", "/dev/"));
    assert!(!has_prefix("", "/dev/"));
}

#[test]
fn single_character_is_told() {
    assert!(is_char("0", '0'));
    assert!(!is_char("1", '0'));
    assert!(!is_char("00", '0'));
    assert!(!is_char("", '0'));
}

#[test]
fn integers_are_read() {
    assert_eq!(parse_u16_text("0"), Ok(0));
    assert_eq!(parse_u16_text("1"), Ok(1));
    assert_eq!(parse_u16_text("65535"), Ok(65535));
    assert_eq!(parse_u16_text("+7"), Ok(7));
    assert_eq!(parse_u16_text("00012"), Ok(12));
    assert_eq!(parse_u16_text("0000000065535"), Ok(65535));
}

#[test]
fn integer_faults_are_told_apart() {
    assert_eq!(parse_u16_text(""), Err(IntegerFault::Empty));
    assert_eq!(parse_u16_text("+"), Err(IntegerFault::InvalidDigit));
    assert_eq!(parse_u16_text("-"), Err(IntegerFault::InvalidDigit));
    assert_eq!(parse_u16_text("-1"), Err(IntegerFault::InvalidDigit));
    assert_eq!(parse_u16_text("abc"), Err(IntegerFault::InvalidDigit));
    assert_eq!(parse_u16_text("1_000"), Err(IntegerFault::InvalidDigit));
    assert_eq!(parse_u16_text("12 "), Err(IntegerFault::InvalidDigit));
    assert_eq!(parse_u16_text("++1"), Err(IntegerFault::InvalidDigit));
    assert_eq!(parse_u16_text("99999x"), Err(IntegerFault::InvalidDigit));
    assert_eq!(parse_u16_text("\u{663}"), Err(IntegerFault::InvalidDigit));
    assert_eq!(parse_u16_text("65536"), Err(IntegerFault::Overflow));
    assert_eq!(parse_u16_text("99999999999999999999999"), Err(IntegerFault::Overflow));
}

#[test]
fn integers_are_read_as_std_reads_them() {
    for text in [
        "", "0", "7", "+7", "-7", "+", "-", "65535", "65536", "065535", "123456", "12a", "a12",
        " 12", "12 ", "1 2", "٣", "+0", "+65535", "+65536", "0x10", "99999999999999999999",
    ] {
        assert_eq!(parse_u16_text(text).ok(), text.parse::<u16>().ok(), "{:?}", text);
    }
}

#[test]
fn decimal_is_what_std_prints() {
    let mut n: u16 = 0;
    loop {
        assert_eq!(decimal_text(n), n.to_string());
        assert_eq!(parse_u16_text(&decimal_text(n)), Ok(n));
        if n == u16::MAX {
            break;
        }
        n += 1;
    }
}

#[test]
fn decimal_named_cases() {
    assert_eq!(decimal_text(0), "0");
    assert_eq!(decimal_text(9), "9");
    assert_eq!(decimal_text(10), "10");
    assert_eq!(decimal_text(65535), "65535");
}
