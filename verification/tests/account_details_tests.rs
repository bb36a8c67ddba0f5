use gas_network::bytes::FAILURE;
use gas_network::client_listener::{join_texts, unknown_region_response};
use gas_network::messages::account_details::{AccountDetails, DETAILS_REPLY};
use gas_network::messages::update_regions::UPD_REGIONS;
use gas_network::regional_registry::RegionalRegistry;

fn sample() -> AccountDetails {
    AccountDetails {
        username: "acme".to_string(),
        display_name: "Acme S.A.".to_string(),
        regions: vec![("CABA".to_string(), 50000.0f64.to_bits()), ("Sur".to_string(), 100.5f64.to_bits())],
        total_spent_bits: 1234.5f64.to_bits(),
        cards: vec![(7, 1000.0f64.to_bits(), 250.25f64.to_bits())],
    }
}

#[test]
fn account_details_roundtrip() {
    let d = sample();
    let bytes = d.serialize();
    assert_eq!(bytes[0], DETAILS_REPLY);
    let back = AccountDetails::deserialize_checked(&bytes[1..]).unwrap().unwrap();
    assert_eq!(back.username, "acme");
    assert_eq!(back.display_name, "Acme S.A.");
    assert_eq!(back.regions, d.regions);
    assert_eq!(f64::from_bits(back.total_spent_bits), 1234.5);
    assert_eq!(back.cards, vec![(7, 1000.0f64.to_bits(), 250.25f64.to_bits())]);
}

#[test]
fn account_details_exact_bytes() {
    let d = AccountDetails {
        username: "ab".to_string(),
        display_name: "".to_string(),
        regions: vec![],
        total_spent_bits: 3,
        cards: vec![],
    };
    let mut expected = vec![1u8];
    expected.extend_from_slice(&2u64.to_be_bytes());
    expected.extend_from_slice(b"ab");
    expected.extend_from_slice(&0u64.to_be_bytes());
    expected.extend_from_slice(&0u64.to_be_bytes());
    expected.extend_from_slice(&3u64.to_be_bytes());
    expected.extend_from_slice(&0u64.to_be_bytes());
    assert_eq!(d.serialize(), expected);
}

#[test]
fn account_details_short_and_invalid_inputs() {
    let bytes = sample().serialize();
    let cut = &bytes[1..bytes.len() - 3];
    assert!(matches!(AccountDetails::deserialize_checked(cut), Some(Err(_))));
    assert!(matches!(AccountDetails::deserialize_checked(&[]), Some(Err(_))));
    let mut bad = Vec::new();
    bad.extend_from_slice(&1u64.to_be_bytes());
    bad.push(0xff);
    assert!(AccountDetails::deserialize_checked(&bad).is_none());
}

#[test]
fn join_texts_separates_parts() {
    assert_eq!(join_texts(&vec![], ", "), "");
    assert_eq!(join_texts(&vec!["a".to_string()], ", "), "a");
    assert_eq!(
        join_texts(&vec!["a".to_string(), "b".to_string(), "c".to_string()], ", "),
        "a, b, c"
    );
}

#[test]
fn unknown_region_is_refused_with_the_list_of_regions() {
    let mut reg = RegionalRegistry::new();
    reg.register("CABA".to_string(), "127.0.0.1:8012".to_string()).unwrap();
    reg.register("Norte".to_string(), "127.0.0.1:8013".to_string()).unwrap();
    assert!(unknown_region_response(&reg, 5, &vec!["CABA".to_string(), "Norte".to_string()]).is_none());
    let m = unknown_region_response(
        &reg,
        5,
        &vec!["CABA".to_string(), "Sur".to_string(), "Oeste".to_string()],
    )
    .unwrap();
    assert_eq!(m.code(), UPD_REGIONS);
    assert_eq!(m.status(), FAILURE);
    assert_eq!(m.id(), 5);
    assert_eq!(
        m.piggyback(),
        Some("Región 'Sur' no existe. Regiones disponibles: CABA, Norte".as_bytes().to_vec())
    );
}
