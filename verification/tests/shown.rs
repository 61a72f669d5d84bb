//! What messages and notifications make the client show.
use reader_bt::card::{CardReadout, CardState, Punch};
use reader_bt::display::{card_readout_lines, card_state_line, family_name, punch_type_name};
use reader_bt::message::{handle_message, Report};
use reader_bt::session::Session;

fn framed(id: u16, body: &[u8]) -> Vec<u8> {
    let mut m = id.to_le_bytes().to_vec();
    m.extend_from_slice(&(body.len() as u16).to_le_bytes());
    m.extend_from_slice(body);
    m
}

fn output(report: Report) -> Vec<String> {
    match report {
        Report::Output(lines) => lines,
        Report::Nothing => panic!("nothing shown"),
        Report::Diagnostic(line) => panic!("diagnostic: {}", line),
    }
}

fn diagnostic(report: Report) -> String {
    match report {
        Report::Diagnostic(line) => line,
        Report::Nothing => panic!("nothing shown"),
        Report::Output(lines) => panic!("output: {:?}", lines),
    }
}

#[test]
fn card_state_line_has_columns() {
    let s = CardState { card_number: 1_504_639, state: 1, code_number: 7 };
    assert_eq!(card_state_line(&s), "Card  1504639  station   7  INSERTED");
    let s = CardState { card_number: 4_294_967_295, state: 0, code_number: 12345 };
    assert_eq!(card_state_line(&s), "Card 4294967295  station 12345  REMOVED");
    let s = CardState { card_number: 0, state: 2, code_number: 0 };
    assert_eq!(card_state_line(&s), "Card        0  station   0  REMOVED");
}

#[test]
fn card_readout_lines_show_everything() {
    let r = CardReadout {
        card_number: 1_504_639,
        card_family: 1,
        punches: vec![
            Punch { control_info: 0, punch_type: 1, control_code: 3, time_ms: 321_911_000 },
            Punch { control_info: 0, punch_type: 6, control_code: 1000, time_ms: 0 },
        ],
        owner: Some("John Smith".to_string()),
    };
    let thick = format!("{}", "\u{2501}".repeat(47));
    let thin = format!("{}", "\u{2500}".repeat(47));
    assert_eq!(
        card_readout_lines(&r),
        vec![
            thick.clone(),
            " Card  1504639   family: SI-Card9".to_string(),
            thin.clone(),
            "  1. Clear         ctrl   3  Wed 17:25:11.000".to_string(),
            "  2. FinishReserve  ctrl 1000  Sun 00:00:00.000".to_string(),
            thin,
            " Owner: John Smith".to_string(),
            thick,
        ]
    );
}

#[test]
fn card_readout_lines_without_owner() {
    let r = CardReadout { card_number: 5, card_family: 3, punches: vec![], owner: None };
    let lines = card_readout_lines(&r);
    assert_eq!(lines.len(), 4);
    assert_eq!(lines[1], " Card        5   family: unknown");
}

#[test]
fn punch_lines_agree_with_format() {
    let mut punches = Vec::new();
    for i in 0..120u16 {
        punches.push(Punch { control_info: 0, punch_type: (i % 9) as u8, control_code: i * 300, time_ms: i as u32 * 7_654_321 });
    }
    let r = CardReadout { card_number: 1, card_family: 2, punches, owner: None };
    let lines = card_readout_lines(&r);
    for (i, p) in r.punches.iter().enumerate() {
        assert_eq!(
            lines[3 + i],
            format!(" {:>2}. {:12}  ctrl {:>3}  {}", i + 1, punch_type_name(p.punch_type), p.control_code,
                reader_bt::time::format_time(p.time_ms))
        );
    }
}

#[test]
fn names_of_families_and_punch_types() {
    let families: Vec<&str> = vec![1u8, 2, 4, 15, 0, 3, 16].into_iter().map(family_name).collect();
    assert_eq!(families, ["SI-Card9", "SI-Card8", "SI-pCard", "SIAC", "unknown", "unknown", "unknown"]);
    let types: Vec<&str> = (0u8..9).map(punch_type_name).collect();
    assert_eq!(
        types,
        ["Undefined", "Clear", "Check", "Start", "StartReserve", "Finish", "FinishReserve", "Control", "?"]
    );
}

#[test]
fn card_state_message_is_shown() {
    let data = framed(0x1101, &[0x7F, 0xF5, 0x16, 0x00, 0x01, 0x07, 0x00]);
    assert_eq!(output(handle_message(&data)), ["Card  1504639  station   7  INSERTED"]);
}

#[test]
fn short_card_state_shows_nothing() {
    assert!(matches!(handle_message(&framed(0x1101, &[1, 2, 3])), Report::Nothing));
    assert!(matches!(handle_message(&[0x01, 0x11, 0x00]), Report::Nothing));
}

#[test]
fn minimal_and_complete_readouts_are_shown_alike() {
    let body = [0x05, 0x00, 0x00, 0x00, 0x02, 0x00, 0x00];
    let minimal = output(handle_message(&framed(0x1102, &body)));
    assert_eq!(minimal, output(handle_message(&framed(0x1103, &body))));
    assert_eq!(minimal[1], " Card        5   family: SI-Card8");
}

#[test]
fn short_readout_is_diagnosed() {
    let body = [0x05, 0x00, 0x00, 0x00, 0x02, 0x01, 0x00];
    assert_eq!(diagnostic(handle_message(&framed(0x1103, &body))), "truncated card readout payload");
}

#[test]
fn truncated_message_is_diagnosed() {
    assert_eq!(diagnostic(handle_message(&[0x0E, 0x01, 0x02, 0x00, 0x00])), "message truncated (id=0x010E)");
}

#[test]
fn unknown_message_is_shown() {
    assert_eq!(output(handle_message(&framed(0xABCD, &[0; 12]))), ["[unknown msg 0xABCD, 12 payload bytes]"]);
    assert_eq!(output(handle_message(&framed(0x010C, &[]))), ["[unknown msg 0x010C, 0 payload bytes]"]);
}

#[test]
fn characteristics_do_not_mix() {
    let mut session = Session::default();
    let message = framed(0x0001, &[1, 2]);
    let mut body = vec![0x01];
    body.extend_from_slice(&6u32.to_le_bytes());
    body.extend_from_slice(&message[..3]);
    assert!(matches!(session.on_notification(1, &framed(0xA101, &body)), Report::Nothing));
    // The other characteristic has no reassembly under way.
    let mut last = vec![0x02];
    last.extend_from_slice(&message[3..]);
    assert_eq!(
        diagnostic(session.on_notification(2, &framed(0xA101, &last))),
        "reassembly length mismatch: got 3 expected 0"
    );
    assert_eq!(
        output(session.on_notification(1, &framed(0xA101, &last))),
        ["[unknown msg 0x0001, 2 payload bytes]"]
    );
    assert_eq!(
        output(session.on_notification(2, &message)),
        ["[unknown msg 0x0001, 2 payload bytes]"]
    );
}

#[test]
fn junk_behind_empty_names_shows_no_owner() {
    let body = [0x01, 0x00, 0x00, 0x00, 0x0F, 0x00, 0x00, 0x11, 0x3B, 0x3B, 0xEE, 0x00];
    for id in [0x1102, 0x1103] {
        let message = framed(id, &body);
        let lines = output(handle_message(&message));
        assert_eq!(lines.len(), 4);
        assert_eq!(lines[1], " Card        1   family: SIAC");
        assert_eq!(output(Session::default().on_notification(7, &message)), lines);
    }
}

#[test]
fn junk_behind_the_names_does_not_change_the_owner() {
    let mut body = vec![0x01, 0x00, 0x00, 0x00, 0x0F, 0x00, 0x00, 0x11];
    body.extend_from_slice(b"John;Smith;");
    let mut junk = body.clone();
    body.push(0x00);
    junk.extend_from_slice(&[0xEE, 0xC3, 0x00]);
    let lines = output(handle_message(&framed(0x1103, &body)));
    assert!(lines.iter().any(|line| line.contains("John Smith")));
    assert_eq!(output(handle_message(&framed(0x1103, &junk))), lines);
}
