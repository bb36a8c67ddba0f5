use gas_network::messages::data_response::DataResponseMessage;

// All operation codes, as numbers.
fn get_all_operation_codes() -> Vec<u8> {
    vec![0, 1, 2, 3, 4, 5, 6]
}

#[test]
fn test_new_creates_data_response_message() {
    // OperationCode::RegAccMsg -> 0
    let msg = DataResponseMessage::new(0, 0, 12345, None);

    assert_eq!(msg.code(), 0);
    assert_eq!(msg.status(), 0);
    assert_eq!(msg.id(), 12345);
}

#[test]
fn test_new_with_success_status() {
    let msg = DataResponseMessage::new(0, 0, 999, None);

    assert_eq!(msg.status(), 0);
}

#[test]
fn test_new_with_error_status() {
    // OperationCode::Error -> 6
    let msg = DataResponseMessage::new(6, 1, 999, None);

    assert_eq!(msg.status(), 1);
}

#[test]
fn data_response_test_serialize_produces_correct_size() {
    let msg = DataResponseMessage::new(0, 0, 12345, None);

    let serialized = msg.serialize();

    // u8(code) + u8(status) + u64(id) + u64(piggyback_len)
    // 1 + 1 + 8 + 8 = 18 bytes
    assert_eq!(serialized.len(), 18);
}

#[test]
fn test_serialize_byte_structure() {
    let msg = DataResponseMessage::new(0, 0, 12345, None);

    let serialized = msg.serialize();

    // First byte should be operation code (0)
    assert_eq!(serialized[0], 0);

    // Second byte should be status
    assert_eq!(serialized[1], 0);

    // Bytes 2..10 should be id in big-endian
    let id_bytes = &serialized[2..10];
    assert_eq!(u64::from_be_bytes(id_bytes.try_into().unwrap()), 12345);

    // Bytes 10..18 should be piggyback length (0)
    let piggy_len = &serialized[10..18];
    assert_eq!(u64::from_be_bytes(piggy_len.try_into().unwrap()), 0);
}

#[test]
fn data_response_test_deserialize_from_valid_bytes() {
    let mut bytes = Vec::new();
    bytes.push(0u8); // RegAccMsg
    bytes.push(0u8); // Success status
    bytes.extend_from_slice(&12345u64.to_be_bytes());
    bytes.extend_from_slice(&0u64.to_be_bytes()); // Piggyback len

    let result = DataResponseMessage::deserialize(&bytes);
    assert!(result.is_ok());

    let msg = result.unwrap();
    assert_eq!(msg.code(), 0);
    assert_eq!(msg.status(), 0);
    assert_eq!(msg.id(), 12345);
}

#[test]
fn data_response_test_serialize_deserialize_roundtrip() {
    // OperationCode::UpdAccMsg -> 1
    let original = DataResponseMessage::new(1, 0, 999999, None);

    let serialized = original.serialize();
    let deserialized = DataResponseMessage::deserialize(&serialized).unwrap();

    assert_eq!(original.code(), deserialized.code());
    assert_eq!(original.status(), deserialized.status());
    assert_eq!(original.id(), deserialized.id());
}

#[test]
fn test_all_operation_codes_roundtrip() {
    for code in get_all_operation_codes() {
        let original = DataResponseMessage::new(code, 0, 100, None);
        let serialized = original.serialize();
        let deserialized = DataResponseMessage::deserialize(&serialized).unwrap();

        assert_eq!(original.code(), deserialized.code());
    }
}

#[test]
fn test_with_max_status_value() {
    let msg = DataResponseMessage::new(0, u8::MAX, 12345, None);

    let serialized = msg.serialize();
    let deserialized = DataResponseMessage::deserialize(&serialized).unwrap();

    assert_eq!(deserialized.status(), u8::MAX);
    assert_eq!(deserialized.status(), 255);
}

#[test]
fn test_with_max_id_value() {
    let msg = DataResponseMessage::new(0, 0, u64::MAX, None);

    let serialized = msg.serialize();
    let deserialized = DataResponseMessage::deserialize(&serialized).unwrap();

    assert_eq!(deserialized.id(), u64::MAX);
}

#[test]
fn test_with_zero_id() {
    let msg = DataResponseMessage::new(0, 0, 0, None);

    let serialized = msg.serialize();
    let deserialized = DataResponseMessage::deserialize(&serialized).unwrap();

    assert_eq!(deserialized.id(), 0);
}

#[test]
fn data_response_test_deserialize_with_insufficient_bytes() {
    let bytes = vec![0u8; 10]; // Only 10 bytes instead of 18
    let result = DataResponseMessage::deserialize(&bytes);

    assert!(result.is_err());
}

#[test]
fn data_response_test_deserialize_with_empty_bytes() {
    let bytes: Vec<u8> = vec![];
    let result = DataResponseMessage::deserialize(&bytes);

    assert!(result.is_err());
}

#[test]
fn data_response_test_deserialize_with_partial_data() {
    let mut bytes = Vec::new();
    bytes.push(0u8);
    bytes.push(0u8);
    // Missing id bytes and piggyback len

    let result = DataResponseMessage::deserialize(&bytes);
    assert!(result.is_err());
}

#[test]
fn data_response_test_deserialize_extra_bytes_ignored() {
    let mut bytes = Vec::new();
    bytes.push(0u8);
    bytes.push(0u8);
    bytes.extend_from_slice(&12345u64.to_be_bytes());
    bytes.extend_from_slice(&0u64.to_be_bytes()); // Piggyback len
    bytes.extend_from_slice(&[99, 99, 99]); // Extra bytes

    let result = DataResponseMessage::deserialize(&bytes);
    assert!(result.is_ok());

    let msg = result.unwrap();
    assert_eq!(msg.id(), 12345);
}

#[test]
fn data_response_test_serialize_consistency() {
    let msg = DataResponseMessage::new(0, 0, 12345, None);

    let serialized1 = msg.serialize();
    let serialized2 = msg.serialize();

    assert_eq!(serialized1, serialized2);
}

#[test]
fn test_register_account_success() {
    let msg = DataResponseMessage::new(
        0, // RegAccMsg
        0, // Success
        12345, None,
    );

    let serialized = msg.serialize();
    let deserialized = DataResponseMessage::deserialize(&serialized).unwrap();

    assert_eq!(deserialized.code(), 0);
    assert_eq!(deserialized.status(), 0);
}

#[test]
fn test_register_account_failure() {
    let msg = DataResponseMessage::new(
        0, // RegAccMsg
        1, // Failure
        12345, None,
    );

    let serialized = msg.serialize();
    let deserialized = DataResponseMessage::deserialize(&serialized).unwrap();

    assert_eq!(deserialized.code(), 0);
    assert_eq!(deserialized.status(), 1);
}

#[test]
fn test_update_account_success() {
    let msg = DataResponseMessage::new(1, 0, 67890, None); // UpdAccMsg

    let serialized = msg.serialize();
    let deserialized = DataResponseMessage::deserialize(&serialized).unwrap();

    assert_eq!(deserialized.code(), 1);
    assert_eq!(deserialized.status(), 0);
}

#[test]
fn test_delete_account_success() {
    let msg = DataResponseMessage::new(2, 0, 11111, None); // DelAccMsg

    let serialized = msg.serialize();
    let deserialized = DataResponseMessage::deserialize(&serialized).unwrap();

    assert_eq!(deserialized.code(), 2);
    assert_eq!(deserialized.status(), 0);
}

#[test]
fn data_response_test_register_card_success() {
    let msg = DataResponseMessage::new(3, 0, 22222, None); // RegCardMsg

    let serialized = msg.serialize();
    let deserialized = DataResponseMessage::deserialize(&serialized).unwrap();

    assert_eq!(deserialized.code(), 3);
    assert_eq!(deserialized.status(), 0);
}

#[test]
fn test_update_card_success() {
    let msg = DataResponseMessage::new(4, 0, 33333, None); // UpdCardMsg

    let serialized = msg.serialize();
    let deserialized = DataResponseMessage::deserialize(&serialized).unwrap();

    assert_eq!(deserialized.code(), 4);
    assert_eq!(deserialized.status(), 0);
}

#[test]
fn test_delete_card_success() {
    let msg = DataResponseMessage::new(5, 0, 44444, None); // DelCardMsg

    let serialized = msg.serialize();
    let deserialized = DataResponseMessage::deserialize(&serialized).unwrap();

    assert_eq!(deserialized.code(), 5);
    assert_eq!(deserialized.status(), 0);
}

#[test]
fn test_error_operation() {
    let msg = DataResponseMessage::new(6, 1, 55555, None); // Error

    let serialized = msg.serialize();
    let deserialized = DataResponseMessage::deserialize(&serialized).unwrap();

    assert_eq!(deserialized.code(), 6);
    assert_eq!(deserialized.status(), 1);
}

#[test]
fn test_different_status_codes() {
    for status in [0u8, 1, 2, 10, 50, 100, 200, 255] {
        let msg = DataResponseMessage::new(0, status, 100, None);

        let serialized = msg.serialize();
        let deserialized = DataResponseMessage::deserialize(&serialized).unwrap();

        assert_eq!(deserialized.status(), status);
    }
}

#[test]
fn test_different_account_ids() {
    let ids = [0u64, 1, 100, 999, 12345, 999999, u64::MAX];

    for id in ids {
        let msg = DataResponseMessage::new(0, 0, id, None);

        let serialized = msg.serialize();
        let deserialized = DataResponseMessage::deserialize(&serialized).unwrap();

        assert_eq!(deserialized.id(), id);
    }
}

#[test]
fn test_all_operations_with_different_ids() {
    let operations = get_all_operation_codes();

    for (idx, op) in operations.iter().enumerate() {
        let msg = DataResponseMessage::new(*op, 0, (idx as u64 + 1) * 1000, None);

        let serialized = msg.serialize();
        let deserialized = DataResponseMessage::deserialize(&serialized).unwrap();

        assert_eq!(deserialized.code(), *op);
        assert_eq!(deserialized.id(), (idx as u64 + 1) * 1000);
    }
}

#[test]
fn test_minimal_valid_message() {
    let msg = DataResponseMessage::new(0, 0, 0, None);

    let serialized = msg.serialize();
    assert_eq!(serialized.len(), 18); // 1 + 1 + 8 + 8

    let deserialized = DataResponseMessage::deserialize(&serialized).unwrap();
    assert_eq!(deserialized.status(), 0);
    assert_eq!(deserialized.id(), 0);
}

#[test]
fn test_maximal_valid_message() {
    let msg = DataResponseMessage::new(6, u8::MAX, u64::MAX, None);

    let serialized = msg.serialize();
    assert_eq!(serialized.len(), 18);

    let deserialized = DataResponseMessage::deserialize(&serialized).unwrap();
    assert_eq!(deserialized.status(), u8::MAX);
    assert_eq!(deserialized.id(), u64::MAX);
}

#[test]
fn data_response_test_byte_order_big_endian() {
    let msg = DataResponseMessage::new(0, 0, 0x0102030405060708, None);

    let serialized = msg.serialize();

    // Verify big-endian encoding of id
    let id_bytes = &serialized[2..10];
    assert_eq!(id_bytes[0], 0x01);
    assert_eq!(id_bytes[1], 0x02);
    assert_eq!(id_bytes[2], 0x03);
    assert_eq!(id_bytes[3], 0x04);
    assert_eq!(id_bytes[4], 0x05);
    assert_eq!(id_bytes[5], 0x06);
    assert_eq!(id_bytes[6], 0x07);
    assert_eq!(id_bytes[7], 0x08);
}

#[test]
fn test_deserialize_with_invalid_operation_code() {
    // Should deserialize as is (u8), since structure does not enforce Enum
    let mut bytes = Vec::new();
    bytes.push(99u8); // Invalid operation code
    bytes.push(0u8);
    bytes.extend_from_slice(&12345u64.to_be_bytes());
    bytes.extend_from_slice(&0u64.to_be_bytes()); // Piggyback len

    let result = DataResponseMessage::deserialize(&bytes);
    assert!(result.is_ok());

    let msg = result.unwrap();
    assert_eq!(msg.code(), 99);
}
