use gas_network::messages::update_regions::{UpdateRegionsMessage, UPD_REGIONS};

#[test]
fn update_regions_test_new_creates_correct_structure() {
    let account_id = 123;
    let regions = vec!["Norte".to_string(), "Sur".to_string()];
    let limits = vec![1000.0, 500.50];

    let msg = UpdateRegionsMessage::new(account_id, regions.clone(), limits.clone().iter().map(|l: &f64| l.to_bits()).collect());

    assert_eq!(msg.account_id(), account_id);
    assert_eq!(msg.regions(), &regions);
    assert_eq!(msg.limits_bits(), &limits.iter().map(|l: &f64| l.to_bits()).collect::<Vec<u64>>());
}

#[test]
fn update_regions_test_serialize_structure_and_order() {
    let account_id: u64 = 5;
    let region_name = "Test";
    let limit = 123.456;

    let msg = UpdateRegionsMessage::new(account_id, vec![region_name.to_string()], vec![limit].iter().map(|l: &f64| l.to_bits()).collect());

    let serialized = msg.serialize();

    // Estructura esperada:
    // 1 byte:  OpCode (9)
    // 8 bytes: Account ID
    // 8 bytes: Num Regions (1)
    // 8 bytes: Region Len (4)
    // 4 bytes: "Test"
    // 8 bytes: Limit (f64)
    // Total: 1 + 8 + 8 + 8 + 4 + 8 = 37 bytes

    assert_eq!(serialized.len(), 37);
    assert_eq!(serialized[0], UPD_REGIONS); // Byte 0 es el opcode

    // Verificamos Account ID
    let acc_bytes = &serialized[1..9];
    assert_eq!(u64::from_be_bytes(acc_bytes.try_into().unwrap()), 5);

    // Verificamos Num Regions
    let num_reg_bytes = &serialized[9..17];
    assert_eq!(u64::from_be_bytes(num_reg_bytes.try_into().unwrap()), 1);

    // Verificamos Longitud de la string
    let len_str_bytes = &serialized[17..25];
    assert_eq!(u64::from_be_bytes(len_str_bytes.try_into().unwrap()), 4);

    // Verificamos contenido de string
    assert_eq!(&serialized[25..29], region_name.as_bytes());

    // Verificamos el límite
    let limit_bytes = &serialized[29..37];
    assert_eq!(f64::from_be_bytes(limit_bytes.try_into().unwrap()), limit);
}

#[test]
fn update_regions_test_roundtrip_skipping_opcode() {
    // CASO CRÍTICO: Serializamos -> Quitamos byte 0 -> Deserializamos

    let regions = vec!["A".to_string(), "B".to_string()];
    let limits = vec![10.0, 20.0];
    let original = UpdateRegionsMessage::new(777, regions.clone(), limits.clone().iter().map(|l: &f64| l.to_bits()).collect());

    let serialized = original.serialize();

    // Quitamos el opcode manual para simular lectura de socket
    let payload_without_opcode = &serialized[1..];

    let deserialized = UpdateRegionsMessage::deserialize(payload_without_opcode)
        .expect("Should deserialize correctly");

    assert_eq!(original.account_id(), deserialized.account_id());
    assert_eq!(original.regions(), deserialized.regions());
    assert_eq!(original.limits_bits(), deserialized.limits_bits());
}

#[test]
fn test_empty_lists() {
    let msg = UpdateRegionsMessage::new(1, Vec::new(), Vec::new().iter().map(|l: &f64| l.to_bits()).collect());
    let serialized = msg.serialize();

    // OpCode(1) + Account(8) + NumRegions(8) = 17 bytes
    assert_eq!(serialized.len(), 17);

    let deserialized =
        UpdateRegionsMessage::deserialize(&serialized[1..]).expect("Should handle empty lists");

    assert_eq!(deserialized.regions().len(), 0);
    assert_eq!(deserialized.limits_bits().len(), 0);
}

#[test]
fn test_deserialize_error_incomplete_payload() {
    let msg = UpdateRegionsMessage::new(1, vec!["X".to_string()], vec![1.0].iter().map(|l: &f64| l.to_bits()).collect());
    let serialized = msg.serialize();

    // El mensaje completo (sin opcode) debería ser:
    // Account(8) + Num(8) + Len(8) + "X"(1) + Limit(8) = 33 bytes

    // Pasamos un slice cortado justo antes del límite
    let corrupted_payload = &serialized[1..25];

    let result = UpdateRegionsMessage::deserialize(corrupted_payload);
    assert!(result.is_err(), "Should fail when float data is missing");
}

#[test]
fn test_multiple_regions_order_preserved() {
    let regions = vec!["Uno".to_string(), "Dos".to_string(), "Tres".to_string()];
    let limits = vec![1.1, 2.2, 3.3];

    let msg = UpdateRegionsMessage::new(1, regions, limits.iter().map(|l: &f64| l.to_bits()).collect());
    let serialized = msg.serialize();

    let deserialized = UpdateRegionsMessage::deserialize(&serialized[1..]).unwrap();

    assert_eq!(deserialized.regions()[0], "Uno");
    assert_eq!(f64::from_bits(deserialized.limits_bits()[0]), 1.1);

    assert_eq!(deserialized.regions()[2], "Tres");
    assert_eq!(f64::from_bits(deserialized.limits_bits()[2]), 3.3);
}
