//! Times, numbers, columns and searching.
use reader_bt::search::{find_byte, find_char, find_id};
use reader_bt::text::{chars_of, decimal_len, push_decimal, push_hex, push_left, push_number};
use reader_bt::time::format_time;
use reader_bt::wire::{read_u16, read_u32};

fn built(f: impl Fn(&mut String)) -> String {
    let mut s = String::from("<");
    f(&mut s);
    s
}

#[test]
fn every_day_has_its_name() {
    let names = ["Sun", "Mon", "Tue", "Wed", "Thu", "Fri", "Sat", "Sun"];
    for (d, name) in names.iter().enumerate() {
        assert_eq!(format_time(d as u32 * 86_400_000), format!("{} 00:00:00.000", name));
    }
}

#[test]
fn last_millisecond_of_a_day() {
    assert_eq!(format_time(86_399_999), "Sun 23:59:59.999");
    assert_eq!(format_time(604_799_999), "Sat 23:59:59.999");
}

#[test]
fn latest_representable_time() {
    assert_eq!(format_time(u32::MAX), "Sun 17:02:47.295");
}

#[test]
fn times_repeat_every_week() {
    for ms in [0, 1, 321_911_000, 604_799_999] {
        assert_eq!(format_time(ms + 604_800_000), format_time(ms));
        assert_ne!(format_time(ms + 1), format_time(ms));
        assert_eq!(format_time(ms).len(), 16);
    }
}

#[test]
fn decimals_agree_with_format() {
    for n in [0, 1, 9, 10, 99, 100, 12345, u32::MAX as u64, u64::MAX] {
        assert_eq!(built(|s| push_decimal(s, n)), format!("<{}", n));
        assert_eq!(decimal_len(n), format!("{}", n).len());
        assert_eq!(built(|s| push_number(s, n, 8, " ")), format!("<{:>8}", n));
        assert_eq!(built(|s| push_number(s, n, 3, "0")), format!("<{:03}", n));
    }
}

#[test]
fn hexadecimals_agree_with_format() {
    for n in [0u16, 1, 0x0A0B, 0xA101, 0x1103, 0xFFFF, 0x2345, 0x6789, 0xCDEF] {
        assert_eq!(built(|s| push_hex(s, n as u64, 4)), format!("<{:04X}", n));
    }
    assert_eq!(built(|s| push_hex(s, 0x12345, 4)), "<2345");
}

#[test]
fn left_columns_count_characters() {
    assert_eq!(built(|s| push_left(s, "\u{e9}", 3)), "<\u{e9}  ");
    assert_eq!(built(|s| push_left(s, "abcd", 3)), "<abcd");
}

#[test]
fn integers_are_little_endian() {
    let s = [9, 1, 2, 3, 4];
    assert_eq!(read_u16(&s, 1), 0x0201);
    assert_eq!(read_u32(&s, 1), 0x04030201);
}

#[test]
fn first_occurrence_is_found() {
    assert_eq!(find_byte(&[3, 0, 1, 0], 0), Some(1));
    assert_eq!(find_byte(&[3, 1], 0), None);
    assert_eq!(find_char(&chars_of("a;\u{e9};"), ';'), Some(1));
    assert_eq!(find_char(&chars_of("\u{e9}"), ';'), None);
    assert_eq!(find_id(&[5, 6, 6], 6), Some(1));
    assert_eq!(find_id(&[], 6), None);
}
