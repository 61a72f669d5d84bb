//! Owner blocks, and the other edges of readout payloads.
use reader_bt::card::{parse_card_readout, parse_card_state, CardState, Punch};
use reader_bt::owner::{is_white_space, owner_name, parse_owner, trim};

fn owner(area: &[u8]) -> Option<String> {
    let mut p = vec![0x01u8, 0x00, 0x00, 0x00, 0x01, 0x00, 0x00, 0x01];
    p.extend_from_slice(area);
    parse_card_readout(&p).unwrap().owner
}

#[test]
fn white_space_is_that_of_unicode() {
    for v in 0..=0x10FFFFu32 {
        if let Some(c) = char::from_u32(v) {
            assert_eq!(is_white_space(c), c.is_whitespace(), "U+{:04X}", v);
        }
    }
}

#[test]
fn trim_agrees_with_str_trim() {
    for s in ["", " ", "a", " a", "a ", "\t a b \n", "\u{3000}\u{e9}\u{a0}", "\u{2003}x\u{200b} ", "\u{85}"] {
        assert_eq!(trim(s), s.trim());
    }
}

#[test]
fn one_name_is_enough() {
    assert_eq!(owner_name("John"), Some("John".to_string()));
    assert_eq!(owner_name("John;"), Some("John".to_string()));
    assert_eq!(owner_name(";Smith"), Some("Smith".to_string()));
    assert_eq!(owner_name(" ; Smith ;x"), Some("Smith".to_string()));
}

#[test]
fn further_fields_are_ignored() {
    assert_eq!(owner_name("John;Smith;M;1970"), Some("John Smith".to_string()));
    assert_eq!(owner_name(";;M"), None);
    assert_eq!(owner_name(" ;\t"), None);
    assert_eq!(owner_name(""), None);
}

#[test]
fn names_are_trimmed_but_keep_inner_spaces() {
    assert_eq!(owner_name("  Mary Ann ; van Dyke "), Some("Mary Ann van Dyke".to_string()));
}

#[test]
fn valid_utf8_is_decoded() {
    assert_eq!(owner("J\u{fc}rgen;\u{160}koda\0".as_bytes()), Some("J\u{fc}rgen \u{160}koda".to_string()));
}

#[test]
fn invalid_utf8_is_replaced() {
    assert_eq!(owner(b"J\xFCrgen;K\0"), Some("J\u{FFFD}rgen K".to_string()));
}

#[test]
fn two_semicolons_at_the_start_tell_no_owner() {
    assert_eq!(parse_owner(b"\x11;;\xEE\xEE\xEE\0"), None);
    assert_eq!(parse_owner(b"\x11;;A;B\0"), None);
    assert_eq!(parse_owner(b"\x11;;"), None);
    assert_eq!(owner(b";;\xEE\xEE\0"), None);
}

#[test]
fn nothing_after_the_names_has_influence_on_the_owner() {
    assert_eq!(owner_name("A;B;"), owner_name("A;B;C;;D"));
    assert_eq!(parse_owner(b"\x11J\xC3\xBCrgen;K;\0"), Some("J\u{fc}rgen K".to_string()));
    assert_eq!(parse_owner(b"\x11J\xC3\xBCrgen;K;\xEE\xEE\xC3\0"), Some("J\u{fc}rgen K".to_string()));
}

#[test]
fn owner_consists_of_the_text() {
    for area in [&b"A;B\0C"[..], b"\xEE\xEE;B\xFF\0", b"A\xC3;\xE2\x82\0x", b"\xF0\x9F;\x80\0"] {
        assert!(!owner(area).unwrap().contains('\0'));
    }
    assert_eq!(owner_name("ab;cd;ef"), Some("ab cd".to_string()));
}

#[test]
fn owner_area_ends_at_the_first_nul() {
    assert_eq!(owner(b"A;B\0C;D\0"), Some("A B".to_string()));
    assert_eq!(owner(b"\0A;B\0"), None);
}

#[test]
fn no_owner_without_owner_area() {
    let head = [0x01u8, 0x00, 0x00, 0x00, 0x01, 0x00, 0x00];
    assert_eq!(parse_card_readout(&head).unwrap().owner, None);
    assert_eq!(owner(b""), None);
    assert_eq!(owner(b"A;B"), None);
    assert_eq!(parse_owner(&[]), None);
    assert_eq!(parse_owner(&[17]), None);
    assert_eq!(parse_owner(b"\x11A;B\0"), Some("A B".to_string()));
}

#[test]
fn readout_is_parsed_field_by_field() {
    let p = [
        0x04, 0x03, 0x02, 0x01, 0x0F, 0x02, 0x00, // card 0x01020304, SIAC, two punches
        0x80, 0x07, 0x2C, 0x01, 0x01, 0x02, 0x03, 0x04, //
        0x00, 0x03, 0xFF, 0xFF, 0xFF, 0xFF, 0xFF, 0xFF, //
    ];
    let r = parse_card_readout(&p).unwrap();
    assert_eq!(r.card_number, 0x01020304);
    assert_eq!(r.card_family, 15);
    assert_eq!(
        r.punches,
        vec![
            Punch { control_info: 0x80, punch_type: 7, control_code: 300, time_ms: 0x04030201 },
            Punch { control_info: 0, punch_type: 3, control_code: 0xFFFF, time_ms: 0xFFFF_FFFF },
        ]
    );
    assert_eq!(r.owner, None);
    for len in 0..p.len() {
        assert!(parse_card_readout(&p[..len]).is_none(), "{} bytes", len);
    }
}

#[test]
fn readout_with_most_punches() {
    let mut p = vec![0x00u8, 0x00, 0x00, 0x00, 0x01, 0xFF, 0xFF];
    p.resize(7 + 8 * 65535, 0x01);
    assert_eq!(parse_card_readout(&p).unwrap().punches.len(), 65535);
    p.pop();
    assert!(parse_card_readout(&p).is_none());
}

#[test]
fn card_state_needs_seven_bytes_and_ignores_more() {
    let p = [0x01, 0x02, 0x03, 0x04, 0x05, 0x06, 0x07, 0x08];
    let s = CardState { card_number: 0x04030201, state: 5, code_number: 0x0706 };
    assert_eq!(parse_card_state(&p), Some(CardState { ..s }));
    assert_eq!(parse_card_state(&p[..7]), Some(s));
    assert_eq!(parse_card_state(&p[..6]), None);
}
