use gas_network::messages::data::{Data, DATA_BYTES_SIZE};

#[test]
fn test_new_creates_data() {
    let data = Data::new(
        1234567890, // date
        100,        // gas_station_id
        5,          // pump_id
        999,        // card_id
        f64::to_bits(45.5),       // gas_amount
        f64::to_bits(2500.75),    // total
        f64::to_bits(125.50),     // fees
    );

    assert_eq!(data.fields().0, 1234567890);
    assert_eq!(data.fields().1, 100);
    assert_eq!(data.fields().2, 5);
    assert_eq!(data.fields().3, 999);
    assert_eq!(f64::from_bits(data.fields().4), 45.5);
    assert_eq!(f64::from_bits(data.fields().5), 2500.75);
    assert_eq!(f64::from_bits(data.fields().6), 125.50);
}

#[test]
fn data_test_serialize_produces_correct_size() {
    let data = Data::new(1000, 1, 1, 100, f64::to_bits(50.0), f64::to_bits(3000.0), f64::to_bits(150.0));
    let serialized = data.serialize();

    // i64(8) + u64(8) + u8(1) + u64(8) + f64(8) + f64(8) + f64(8) = 49 bytes
    assert_eq!(serialized.len(), DATA_BYTES_SIZE);
    assert_eq!(serialized.len(), 49);
}

#[test]
fn test_serialize_byte_order() {
    let data = Data::new(1000, 100, 5, 200, f64::to_bits(45.5), f64::to_bits(2500.0), f64::to_bits(125.0));
    let serialized = data.serialize();

    // Verify big-endian encoding for first field (date - i64)
    let date_bytes = &serialized[0..8];
    assert_eq!(i64::from_be_bytes(date_bytes.try_into().unwrap()), 1000);

    // Verify gas_station_id (u64)
    let station_bytes = &serialized[8..16];
    assert_eq!(u64::from_be_bytes(station_bytes.try_into().unwrap()), 100);

    // Verify pump_id (u8)
    assert_eq!(serialized[16], 5);

    // Verify card_id (u64)
    let card_bytes = &serialized[17..25];
    assert_eq!(u64::from_be_bytes(card_bytes.try_into().unwrap()), 200);
}

#[test]
fn data_test_deserialize_from_valid_bytes() {
    let mut bytes = Vec::new();
    bytes.extend_from_slice(&1000i64.to_be_bytes());
    bytes.extend_from_slice(&100u64.to_be_bytes());
    bytes.extend_from_slice(&5u8.to_be_bytes());
    bytes.extend_from_slice(&200u64.to_be_bytes());
    bytes.extend_from_slice(&45.5f64.to_be_bytes());
    bytes.extend_from_slice(&2500.0f64.to_be_bytes());
    bytes.extend_from_slice(&125.0f64.to_be_bytes());

    let result = Data::deserialize(&bytes);
    assert!(result.is_ok());

    let data = result.unwrap();
    assert_eq!(data.fields().0, 1000);
    assert_eq!(data.fields().1, 100);
    assert_eq!(data.fields().2, 5);
    assert_eq!(data.fields().3, 200);
    assert_eq!(f64::from_bits(data.fields().4), 45.5);
    assert_eq!(f64::from_bits(data.fields().5), 2500.0);
    assert_eq!(f64::from_bits(data.fields().6), 125.0);
}

#[test]
fn data_test_serialize_deserialize_roundtrip() {
    let original = Data::new(1234567890, 999, 42, 12345, f64::to_bits(65.75), f64::to_bits(4250.50), f64::to_bits(212.53));

    let serialized = original.serialize();
    let deserialized = Data::deserialize(&serialized).unwrap();

    assert_eq!(original.fields().0, deserialized.fields().0);
    assert_eq!(original.fields().1, deserialized.fields().1);
    assert_eq!(original.fields().2, deserialized.fields().2);
    assert_eq!(original.fields().3, deserialized.fields().3);
    assert_eq!(f64::from_bits(original.fields().4), f64::from_bits(deserialized.fields().4));
    assert_eq!(f64::from_bits(original.fields().5), f64::from_bits(deserialized.fields().5));
    assert_eq!(f64::from_bits(original.fields().6), f64::from_bits(deserialized.fields().6));
}

#[test]
fn test_with_zero_values() {
    let data = Data::new(0, 0, 0, 0, f64::to_bits(0.0), f64::to_bits(0.0), f64::to_bits(0.0));
    let serialized = data.serialize();
    let deserialized = Data::deserialize(&serialized).unwrap();

    assert_eq!(deserialized.fields().0, 0);
    assert_eq!(deserialized.fields().1, 0);
    assert_eq!(deserialized.fields().2, 0);
    assert_eq!(deserialized.fields().3, 0);
    assert_eq!(f64::from_bits(deserialized.fields().4), 0.0);
    assert_eq!(f64::from_bits(deserialized.fields().5), 0.0);
    assert_eq!(f64::from_bits(deserialized.fields().6), 0.0);
}

#[test]
fn test_with_negative_timestamp() {
    // Date before Unix epoch
    let data = Data::new(-1000, 100, 5, 200, f64::to_bits(45.5), f64::to_bits(2500.0), f64::to_bits(125.0));
    let serialized = data.serialize();
    let deserialized = Data::deserialize(&serialized).unwrap();

    assert_eq!(deserialized.fields().0, -1000);
}

#[test]
fn test_with_min_max_timestamp() {
    // Minimum i64 timestamp
    let data_min = Data::new(i64::MIN, 1, 1, 1, f64::to_bits(1.0), f64::to_bits(1.0), f64::to_bits(1.0));
    let serialized_min = data_min.serialize();
    let deserialized_min = Data::deserialize(&serialized_min).unwrap();
    assert_eq!(deserialized_min.fields().0, i64::MIN);

    // Maximum i64 timestamp
    let data_max = Data::new(i64::MAX, 1, 1, 1, f64::to_bits(1.0), f64::to_bits(1.0), f64::to_bits(1.0));
    let serialized_max = data_max.serialize();
    let deserialized_max = Data::deserialize(&serialized_max).unwrap();
    assert_eq!(deserialized_max.fields().0, i64::MAX);
}

#[test]
fn data_test_with_max_u64_values() {
    let data = Data::new(1000, u64::MAX, 1, u64::MAX, f64::to_bits(50.0), f64::to_bits(3000.0), f64::to_bits(150.0));
    let serialized = data.serialize();
    let deserialized = Data::deserialize(&serialized).unwrap();

    assert_eq!(deserialized.fields().1, u64::MAX);
    assert_eq!(deserialized.fields().3, u64::MAX);
}

#[test]
fn test_with_max_pump_id() {
    let data = Data::new(1000, 100, u8::MAX, 200, f64::to_bits(45.5), f64::to_bits(2500.0), f64::to_bits(125.0));
    let serialized = data.serialize();
    let deserialized = Data::deserialize(&serialized).unwrap();

    assert_eq!(deserialized.fields().2, u8::MAX);
    assert_eq!(deserialized.fields().2, 255);
}

#[test]
fn data_test_deserialize_with_insufficient_bytes() {
    let bytes = vec![0u8; 30]; // Only 30 bytes instead of 49
    let result = Data::deserialize(&bytes);

    assert!(result.is_err());
}

#[test]
fn data_test_deserialize_with_empty_bytes() {
    let bytes: Vec<u8> = vec![];
    let result = Data::deserialize(&bytes);

    assert!(result.is_err());
}

#[test]
fn data_test_deserialize_with_partial_data() {
    let mut bytes = Vec::new();
    bytes.extend_from_slice(&1000i64.to_be_bytes());
    bytes.extend_from_slice(&100u64.to_be_bytes());
    // Missing remaining fields

    let result = Data::deserialize(&bytes);
    assert!(result.is_err());
}

#[test]
fn test_realistic_gas_transaction() {
    // Realistic gas station transaction
    let data = Data::new(
        1730419200, // Nov 1, 2024 00:00:00 UTC
        101,        // Gas station ID
        3,          // Pump 3
        67890,      // Card ID
        f64::to_bits(45.5),       // 45.5 liters
        f64::to_bits(2750.25),    // Total amount
        f64::to_bits(137.51),     // Fees (5% of total)
    );

    let serialized = data.serialize();
    let deserialized = Data::deserialize(&serialized).unwrap();

    assert_eq!(deserialized.fields().0, 1730419200);
    assert_eq!(deserialized.fields().1, 101);
    assert_eq!(deserialized.fields().2, 3);
    assert_eq!(deserialized.fields().3, 67890);
    assert_eq!(f64::from_bits(deserialized.fields().4), 45.5);
    assert_eq!(f64::from_bits(deserialized.fields().5), 2750.25);
    assert_eq!(f64::from_bits(deserialized.fields().6), 137.51);
}

#[test]
fn test_multiple_pump_ids() {
    // Test various pump IDs (1-255)
    for pump_id in [1u8, 5, 10, 50, 100, 200, 255] {
        let data = Data::new(1000, 100, pump_id, 200, f64::to_bits(45.5), f64::to_bits(2500.0), f64::to_bits(125.0));
        let serialized = data.serialize();
        let deserialized = Data::deserialize(&serialized).unwrap();

        assert_eq!(deserialized.fields().2, pump_id);
    }
}

#[test]
fn data_test_float_precision() {
    let data = Data::new(
        1000,
        100,
        5,
        200,
        f64::to_bits(45.123456789),
        f64::to_bits(2500.987654321),
        f64::to_bits(125.111222333),
    );

    let serialized = data.serialize();
    let deserialized = Data::deserialize(&serialized).unwrap();

    // f64 should maintain precision through serialization
    assert_eq!(f64::from_bits(deserialized.fields().4), 45.123456789);
    assert_eq!(f64::from_bits(deserialized.fields().5), 2500.987654321);
    assert_eq!(f64::from_bits(deserialized.fields().6), 125.111222333);
}

#[test]
fn test_negative_float_values() {
    // Could represent refunds or corrections
    let data = Data::new(1000, 100, 5, 200, f64::to_bits(-10.0), f64::to_bits(-500.0), f64::to_bits(-25.0));
    let serialized = data.serialize();
    let deserialized = Data::deserialize(&serialized).unwrap();

    assert_eq!(f64::from_bits(deserialized.fields().4), -10.0);
    assert_eq!(f64::from_bits(deserialized.fields().5), -500.0);
    assert_eq!(f64::from_bits(deserialized.fields().6), -25.0);
}

#[test]
fn data_test_special_float_values() {
    let data = Data::new(1000, 100, 5, 200, f64::to_bits(f64::INFINITY), f64::to_bits(f64::NEG_INFINITY), f64::to_bits(0.0));

    let serialized = data.serialize();
    let deserialized = Data::deserialize(&serialized).unwrap();

    assert_eq!(f64::from_bits(deserialized.fields().4), f64::INFINITY);
    assert_eq!(f64::from_bits(deserialized.fields().5), f64::NEG_INFINITY);
}

#[test]
fn data_test_serialize_consistency() {
    let data = Data::new(1000, 100, 5, 200, f64::to_bits(45.5), f64::to_bits(2500.0), f64::to_bits(125.0));

    let serialized1 = data.serialize();
    let serialized2 = data.serialize();

    assert_eq!(serialized1, serialized2);
}

#[test]
fn test_large_gas_amounts() {
    // Very large transaction (e.g., fleet refueling)
    let data = Data::new(
        1000, 100, 5, 200, f64::to_bits(99999.99),   // Large gas amount
        f64::to_bits(9999999.99), // Large total
        f64::to_bits(500000.00),  // Large fees
    );

    let serialized = data.serialize();
    let deserialized = Data::deserialize(&serialized).unwrap();

    assert_eq!(f64::from_bits(deserialized.fields().4), 99999.99);
    assert_eq!(f64::from_bits(deserialized.fields().5), 9999999.99);
    assert_eq!(f64::from_bits(deserialized.fields().6), 500000.00);
}

#[test]
fn test_small_transaction() {
    // Small transaction (e.g., motorcycle or small purchase)
    let data = Data::new(
        1000, 100, 5, 200, f64::to_bits(5.25),   // Small gas amount
        f64::to_bits(315.75), // Small total
        f64::to_bits(15.79),  // Small fees
    );

    let serialized = data.serialize();
    let deserialized = Data::deserialize(&serialized).unwrap();

    assert_eq!(f64::from_bits(deserialized.fields().4), 5.25);
    assert_eq!(f64::from_bits(deserialized.fields().5), 315.75);
    assert_eq!(f64::from_bits(deserialized.fields().6), 15.79);
}

#[test]
fn data_test_deserialize_extra_bytes_ignored() {
    let mut bytes = Vec::new();
    bytes.extend_from_slice(&1000i64.to_be_bytes());
    bytes.extend_from_slice(&100u64.to_be_bytes());
    bytes.extend_from_slice(&5u8.to_be_bytes());
    bytes.extend_from_slice(&200u64.to_be_bytes());
    bytes.extend_from_slice(&45.5f64.to_be_bytes());
    bytes.extend_from_slice(&2500.0f64.to_be_bytes());
    bytes.extend_from_slice(&125.0f64.to_be_bytes());
    bytes.extend_from_slice(&[99, 99, 99]); // Extra bytes

    let result = Data::deserialize(&bytes);
    assert!(result.is_ok());

    let data = result.unwrap();
    assert_eq!(data.fields().0, 1000);
    assert_eq!(data.fields().1, 100);
}

#[test]
fn test_realistic_date_range() {
    // Test with realistic Unix timestamps
    let dates = [
        1704067200i64, // Jan 1, 2024
        1730419200i64, // Nov 1, 2024
        1735689600i64, // Jan 1, 2025
    ];

    for date in dates {
        let data = Data::new(date, 100, 5, 200, f64::to_bits(45.5), f64::to_bits(2500.0), f64::to_bits(125.0));
        let serialized = data.serialize();
        let deserialized = Data::deserialize(&serialized).unwrap();

        assert_eq!(deserialized.fields().0, date);
    }
}

#[test]
fn test_transaction_with_no_fees() {
    let data = Data::new(1000, 100, 5, 200, f64::to_bits(45.5), f64::to_bits(2500.0), f64::to_bits(0.0));
    let serialized = data.serialize();
    let deserialized = Data::deserialize(&serialized).unwrap();

    assert_eq!(f64::from_bits(deserialized.fields().6), 0.0);
}

#[test]
fn test_data_bytes_size_constant_matches() {
    let data = Data::new(1, 1, 1, 1, f64::to_bits(1.0), f64::to_bits(1.0), f64::to_bits(1.0));
    let serialized = data.serialize();

    assert_eq!(serialized.len(), DATA_BYTES_SIZE);
    assert_eq!(DATA_BYTES_SIZE, 49);
}
