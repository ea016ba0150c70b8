use identity_agent::record::{is_plain_text, push_decimal, read_rotation, write_rotation};

const AID: &str = "EOEeFu0FyB_xcu7WBYaF69IIdExNC-SdSP8owwG9T6UY";

#[test]
fn record_text_is_exact() {
    let text = write_rotation(AID, &[0u8, 1, 2], 1).unwrap();
    assert_eq!(
        text,
        "{\"aid\":\"EOEeFu0FyB_xcu7WBYaF69IIdExNC-SdSP8owwG9T6UY\",\"new_public_key\":\"AAEC\",\"sn\":1,\"type\":\"rot\"}"
    );
}

#[test]
fn record_text_is_what_serde_json_writes_for_the_object() {
    let mut object = serde_json::Map::new();
    object.insert("type".to_string(), serde_json::Value::from("rot"));
    object.insert("aid".to_string(), serde_json::Value::from(AID));
    object.insert("new_public_key".to_string(), serde_json::Value::from(base64::encode([9u8; 32])));
    object.insert("sn".to_string(), serde_json::Value::from(17usize));
    let expected = serde_json::to_string(&serde_json::Value::Object(object)).unwrap();
    assert_eq!(write_rotation(AID, &[9u8; 32], 17).unwrap(), expected);
}

#[test]
fn reading_gives_back_what_was_written() {
    for sequence in [0u64, 1, 9, 10, 11, 99, 100, 12345, u64::MAX - 1, u64::MAX] {
        for key in [vec![], vec![0u8], vec![255u8; 2], vec![7u8; 32], vec![1u8; 33]] {
            let text = write_rotation(AID, &key, sequence).unwrap();
            assert_eq!(read_rotation(&text), Some((AID.to_string(), key.clone(), sequence)));
        }
    }
    let text = write_rotation("", &[5u8; 32], 3).unwrap();
    assert_eq!(read_rotation(&text), Some((String::new(), vec![5u8; 32], 3)));
}

#[test]
fn prefix_that_needs_escaping_is_not_written() {
    assert_eq!(write_rotation("a\"b", &[1u8; 32], 1), None);
    assert_eq!(write_rotation("a\\b", &[1u8; 32], 1), None);
    assert_eq!(write_rotation("a\nb", &[1u8; 32], 1), None);
    assert_eq!(write_rotation("caf\u{e9}", &[1u8; 32], 1), None);
    assert_eq!(write_rotation("a\u{7f}", &[1u8; 32], 1), None);
    assert!(write_rotation("a b~!", &[1u8; 32], 1).is_some());
}

#[test]
fn plain_text_is_printable_ascii_without_quote_and_backslash() {
    assert!(is_plain_text(""));
    assert!(is_plain_text("AZaz09-_+/= ~"));
    assert!(!is_plain_text("\""));
    assert!(!is_plain_text("\\"));
    assert!(!is_plain_text("\t"));
    assert!(!is_plain_text("\u{1f}"));
    assert!(!is_plain_text("\u{7f}"));
    assert!(!is_plain_text("\u{80}"));
}

#[test]
fn decimal_numerals_are_exact() {
    for (number, numeral) in [
        (0u64, "0"),
        (7, "7"),
        (10, "10"),
        (109, "109"),
        (1000, "1000"),
        (18446744073709551615, "18446744073709551615"),
    ] {
        let mut out = String::from("sn:");
        push_decimal(&mut out, number);
        assert_eq!(out, format!("sn:{}", numeral));
    }
}

fn record(aid: &str, key: &str, number: &str) -> String {
    format!("{{\"aid\":\"{}\",\"new_public_key\":\"{}\",\"sn\":{},\"type\":\"rot\"}}", aid, key, number)
}

#[test]
fn well_formed_record_is_read() {
    assert_eq!(read_rotation(&record(AID, "AAEC", "42")), Some((AID.to_string(), vec![0, 1, 2], 42)));
}

#[test]
fn numbers_that_are_not_canonical_are_refused() {
    assert_eq!(read_rotation(&record(AID, "AAEC", "")), None);
    assert_eq!(read_rotation(&record(AID, "AAEC", "01")), None);
    assert_eq!(read_rotation(&record(AID, "AAEC", "00")), None);
    assert_eq!(read_rotation(&record(AID, "AAEC", "-1")), None);
    assert_eq!(read_rotation(&record(AID, "AAEC", "+1")), None);
    assert_eq!(read_rotation(&record(AID, "AAEC", "1.0")), None);
    assert_eq!(read_rotation(&record(AID, "AAEC", "1e3")), None);
    assert_eq!(read_rotation(&record(AID, "AAEC", " 1")), None);
    assert_eq!(read_rotation(&record(AID, "AAEC", "18446744073709551616")), None);
    assert_eq!(read_rotation(&record(AID, "AAEC", "99999999999999999999999")), None);
    assert_eq!(
        read_rotation(&record(AID, "AAEC", "18446744073709551615")),
        Some((AID.to_string(), vec![0, 1, 2], u64::MAX))
    );
}

#[test]
fn keys_that_are_not_canonical_base64_are_refused() {
    assert_eq!(read_rotation(&record(AID, "AAE", "1")), None);
    assert_eq!(read_rotation(&record(AID, "AA=C", "1")), None);
    assert_eq!(read_rotation(&record(AID, "AAEC====", "1")), None);
    assert_eq!(read_rotation(&record(AID, "AAE-", "1")), None);
    assert_eq!(read_rotation(&record(AID, "AA EC", "1")), None);
    assert_eq!(read_rotation(&record(AID, "AB==", "1")), None);
    assert_eq!(read_rotation(&record(AID, "AA==", "1")), Some((AID.to_string(), vec![0], 1)));
}

#[test]
fn other_shapes_are_refused() {
    let good = record(AID, "AAEC", "1");
    assert!(read_rotation(&good).is_some());
    assert_eq!(read_rotation(""), None);
    assert_eq!(read_rotation("{}"), None);
    assert_eq!(read_rotation(&good[..good.len() - 1]), None);
    assert_eq!(read_rotation(&format!("{} ", good)), None);
    assert_eq!(read_rotation(&format!(" {}", good)), None);
    assert_eq!(read_rotation(&format!("{}{}", good, good)), None);
    assert_eq!(read_rotation(&good.replace("\"sn\":", "\"sn\": ")), None);
    assert_eq!(read_rotation(&good.replace("rot", "icp")), None);
    assert_eq!(read_rotation(&good.replace("aid", "AID")), None);
    assert_eq!(read_rotation(&record("a\\\"b", "AAEC", "1")), None);
    assert_eq!(read_rotation(&record("caf\u{e9}", "AAEC", "1")), None);
    assert_eq!(
        read_rotation(&format!(
            "{{\"type\":\"rot\",\"aid\":\"{}\",\"new_public_key\":\"AAEC\",\"sn\":1}}",
            AID
        )),
        None
    );
}
