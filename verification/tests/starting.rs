//! Finding the reader and its characteristics.
use reader_bt::setup::{
    characteristic_uuid, eq_ignoring_case, find_device, plan_subscriptions, Subscription, ADDR, CARD_DATA_UUID,
    CARD_STATE_UUID,
};

const STATE: u128 = 0xbd510012_6aec_4628_a146_f3e95bc49e62;
const DATA: u128 = 0xbd510013_6aec_4628_a146_f3e95bc49e62;

fn id(s: &str) -> Option<u128> {
    characteristic_uuid(s).ok()
}

#[test]
fn reader_is_found_in_any_case() {
    let addresses = vec!["00:11:22:33:44:55".to_string(), "cc:da:b5:74:95:82".to_string(), ADDR.to_string()];
    assert_eq!(find_device(&addresses), Ok(1));
    assert_eq!(find_device(&addresses[2..]), Ok(0));
}

#[test]
fn missing_reader_is_an_error() {
    let message = "device CC:DA:B5:74:95:82 not found".to_string();
    assert_eq!(find_device(&[]), Err(message.clone()));
    assert_eq!(find_device(&["CC:DA:B5:74:95:8".to_string()]), Err(message));
}

#[test]
fn only_ascii_case_is_ignored() {
    for (a, b) in [("aZ-9", "Az-9"), ("a", "aa"), ("\u{e9}", "\u{c9}"), ("@", "`"), ("[", "{"), ("", "")] {
        assert_eq!(eq_ignoring_case(a, b), a.eq_ignore_ascii_case(b));
    }
}

#[test]
fn characteristic_ids_are_parsed() {
    assert_eq!(id(CARD_STATE_UUID), Some(STATE));
    assert_eq!(id(CARD_DATA_UUID), Some(DATA));
}

#[test]
fn ids_are_parsed_in_every_form() {
    assert_eq!(id("bd5100126aec4628a146f3e95bc49e62"), Some(STATE));
    assert_eq!(id("BD510012-6AEC-4628-A146-F3E95BC49E62"), Some(STATE));
    assert_eq!(id("{bd510012-6aec-4628-a146-f3e95bc49e62}"), Some(STATE));
    assert_eq!(id("URN:uuid:bd510012-6aec-4628-a146-f3e95bc49e62"), Some(STATE));
}

#[test]
fn malformed_ids_are_rejected() {
    assert_eq!(id(""), None);
    assert_eq!(id("bd510012-6aec-4628-a146-f3e95bc49e6"), None);
    assert_eq!(id("bd510012-6aec-4628-a146-f3e95bc49e6g"), None);
    assert_eq!(id("bd5100126-aec-4628-a146-f3e95bc49e62"), None);
    assert_eq!(id("{bd510012-6aec-4628-a146-f3e95bc49e62)"), None);
    assert_eq!(id("url:uuid:bd510012-6aec-4628-a146-f3e95bc49e62"), None);
    assert_eq!(id("bd5100126aec4628a146f3e95bc49e\u{e9}"), None);
    assert_eq!(id("bd510012-6aec-4628-a146-f3e95bc4\u{10000}"), None);
}

#[test]
fn rejected_id_keeps_its_cause() {
    match characteristic_uuid("x") {
        Ok(_) => panic!("accepted"),
        Err(e) => assert_eq!(e.cause, uuid::Uuid::parse_str("x").unwrap_err()),
    }
}

#[test]
fn plan_subscribes_to_the_first_match() {
    let plan = plan_subscriptions(&[STATE, DATA], &[7, DATA, STATE, STATE]);
    assert!(matches!(plan[..], [Subscription::Subscribe(2), Subscription::Subscribe(1)]));
}

#[test]
fn plan_tells_what_is_missing() {
    let plan = plan_subscriptions(&[0xAB, DATA], &[DATA]);
    match &plan[0] {
        Subscription::Missing(line) => {
            assert_eq!(line, "characteristic 00000000-0000-0000-0000-0000000000ab not found")
        }
        Subscription::Subscribe(_) => panic!("not there"),
    }
    assert!(matches!(plan[1], Subscription::Subscribe(0)));
}

#[test]
fn printed_id_is_read_back() {
    for n in [0, 1, STATE, DATA, u128::MAX, 0x0123456789abcdef0fedcba987654321] {
        match &plan_subscriptions(&[n], &[])[0] {
            Subscription::Missing(line) => {
                let text = line.strip_prefix("characteristic ").unwrap().strip_suffix(" not found").unwrap();
                assert_eq!(id(text), Some(n));
            }
            Subscription::Subscribe(_) => panic!("not there"),
        }
    }
}
