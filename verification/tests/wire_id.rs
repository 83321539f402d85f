//! The wire form of subscription identifiers.

use serde_json::Value;
use ws_server::jsonrpc::Params;
use ws_server::subscription_id::RawServerSubscriptionId;

fn bytes_from(seed: u8) -> [u8; 32] {
    let mut bytes = [0u8; 32];
    for (i, byte) in bytes.iter_mut().enumerate() {
        *byte = seed.wrapping_mul(31).wrapping_add((i as u8).wrapping_mul(7));
    }
    bytes
}

#[test]
fn zero_id_is_thirty_two_ones() {
    let id = RawServerSubscriptionId::from_bytes([0u8; 32]);
    assert_eq!(id.to_wire_string(), "11111111111111111111111111111111");
}

#[test]
fn id_of_one_ends_in_two() {
    let mut bytes = [0u8; 32];
    bytes[31] = 1;
    let id = RawServerSubscriptionId::from_bytes(bytes);
    assert_eq!(id.to_wire_string(), "11111111111111111111111111111112");
}

#[test]
fn base58_round_trip() {
    for seed in 0..=255u8 {
        let id = RawServerSubscriptionId::from_bytes(bytes_from(seed));
        let text = id.to_wire_string();
        assert_eq!(RawServerSubscriptionId::from_wire_text(&text), Ok(id));
        assert_eq!(RawServerSubscriptionId::from_wire_message(&Value::String(text)), Ok(id));
    }
}

#[test]
fn round_trip_keeps_leading_zero_bytes() {
    let mut bytes = [0u8; 32];
    bytes[30] = 0xab;
    bytes[31] = 0xcd;
    let id = RawServerSubscriptionId::from_bytes(bytes);
    let text = id.to_wire_string();
    assert!(text.starts_with("111111111111111111111111111111"));
    assert_eq!(RawServerSubscriptionId::from_wire_text(&text), Ok(id));
}

#[test]
fn short_text_is_padded_on_the_left() {
    let id = RawServerSubscriptionId::from_wire_text("2").unwrap();
    let mut expected = [0u8; 32];
    expected[31] = 1;
    assert_eq!(id, RawServerSubscriptionId::from_bytes(expected));
}

#[test]
fn decoded_text_fills_the_low_bytes() {
    let id = RawServerSubscriptionId::from_wire_text("StV1DL6CwTryKyV").unwrap();
    let mut expected = [0u8; 32];
    expected[21..].copy_from_slice(b"hello world");
    assert_eq!(id.0, expected);
}

#[test]
fn empty_text_is_the_zero_id() {
    assert_eq!(
        RawServerSubscriptionId::from_wire_text(""),
        Ok(RawServerSubscriptionId::from_bytes([0u8; 32]))
    );
}

#[test]
fn from_decoded_pads_and_rejects() {
    assert_eq!(
        RawServerSubscriptionId::from_decoded(&vec![7u8, 9u8]).unwrap().0[30..],
        [7u8, 9u8]
    );
    assert_eq!(
        RawServerSubscriptionId::from_decoded(&vec![1u8; 32]),
        Ok(RawServerSubscriptionId::from_bytes([1u8; 32]))
    );
    assert_eq!(RawServerSubscriptionId::from_decoded(&vec![1u8; 33]), Err(()));
    assert_eq!(
        RawServerSubscriptionId::from_decoded(&Vec::new()),
        Ok(RawServerSubscriptionId::from_bytes([0u8; 32]))
    );
}

#[test]
fn more_than_thirty_two_bytes_are_rejected() {
    // 33 zero bytes.
    let text = "1".repeat(33);
    assert_eq!(RawServerSubscriptionId::from_wire_text(&text), Err(()));
}

#[test]
fn text_that_is_not_base58_is_rejected() {
    assert_eq!(RawServerSubscriptionId::from_wire_text("0OIl"), Err(()));
    assert_eq!(RawServerSubscriptionId::from_wire_text("abc def"), Err(()));
    assert_eq!(RawServerSubscriptionId::from_wire_text("é"), Err(()));
}

#[test]
fn json_that_is_not_a_string_is_rejected() {
    assert_eq!(RawServerSubscriptionId::from_wire_message(&Value::Null), Err(()));
    assert_eq!(RawServerSubscriptionId::from_wire_message(&Value::Bool(true)), Err(()));
    assert_eq!(RawServerSubscriptionId::from_wire_message(&Value::from(12u64)), Err(()));
    assert_eq!(
        RawServerSubscriptionId::from_wire_message(&Value::Array(vec![Value::String(
            "2".to_owned()
        )])),
        Err(())
    );
}

#[test]
fn id_is_read_from_the_first_positional_parameter() {
    let id = RawServerSubscriptionId::from_bytes(bytes_from(3));
    let params = Params::Array(vec![Value::String(id.to_wire_string()), Value::Null]);
    assert_eq!(RawServerSubscriptionId::from_params(&params), Ok(id));
}

#[test]
fn id_is_read_from_the_parameter_named_subscription() {
    let id = RawServerSubscriptionId::from_bytes(bytes_from(4));
    let params = Params::Object(vec![
        ("other".to_owned(), Value::Null),
        ("subscription".to_owned(), Value::String(id.to_wire_string())),
    ]);
    assert_eq!(RawServerSubscriptionId::from_params(&params), Ok(id));
}

#[test]
fn parameters_without_an_id_are_rejected() {
    assert_eq!(RawServerSubscriptionId::from_params(&Params::Absent), Err(()));
    assert_eq!(RawServerSubscriptionId::from_params(&Params::Array(Vec::new())), Err(()));
    assert_eq!(
        RawServerSubscriptionId::from_params(&Params::Array(vec![Value::from(1u64)])),
        Err(())
    );
    assert_eq!(
        RawServerSubscriptionId::from_params(&Params::Object(vec![(
            "id".to_owned(),
            Value::String("2".to_owned())
        )])),
        Err(())
    );
}

#[test]
fn same_compares_the_bytes() {
    let a = RawServerSubscriptionId::from_bytes(bytes_from(1));
    let b = RawServerSubscriptionId::from_bytes(bytes_from(1));
    let c = RawServerSubscriptionId::from_bytes(bytes_from(2));
    assert!(a.same(&b));
    assert!(!a.same(&c));
}

#[test]
fn params_lookups() {
    let array = Params::Array(vec![Value::from(1u64), Value::from(2u64)]);
    assert_eq!(array.get_index(1), Some(&Value::from(2u64)));
    assert_eq!(array.get_index(2), None);
    assert_eq!(array.get_named(&"a".to_owned()), None);
    let object = Params::Object(vec![
        ("a".to_owned(), Value::from(1u64)),
        ("b".to_owned(), Value::from(2u64)),
        ("a".to_owned(), Value::from(3u64)),
    ]);
    assert_eq!(object.get_named(&"a".to_owned()), Some(&Value::from(1u64)));
    assert_eq!(object.get_named(&"b".to_owned()), Some(&Value::from(2u64)));
    assert_eq!(object.get_named(&"c".to_owned()), None);
    assert_eq!(object.get_index(0), None);
    assert_eq!(Params::Absent.get_index(0), None);
    assert_eq!(object.duplicate(), object);
    assert_eq!(array.duplicate(), array);
    assert_eq!(Params::Absent.duplicate(), Params::Absent);
}
