use gas_network::book::{Book, RawAuthor};
use gas_network::gas_station::{
    ack_confirms, should_package, vote_step, BulkBuffer, BulkOutcome, GasStationConfig, VoteStep,
};
use gas_network::messages::data_response::DataResponseMessage;
use gas_network::pump::Pump;
use gas_network::regional::{
    classify_batch_reply, frame_payload_with_code, get_local_ip, next_central,
    registration_request, registration_step, BatchReply, RegistrationStep,
};

#[test]
fn regional_frames_with_code() {
    let framed = frame_payload_with_code(8, &[1, 2, 3]);
    assert_eq!(framed, vec![0, 0, 0, 0, 0, 0, 0, 4, 8, 1, 2, 3]);
    assert_eq!(frame_payload_with_code(6, &[]), vec![0, 0, 0, 0, 0, 0, 0, 1, 6]);
}

#[test]
fn regional_round_robin_and_registration() {
    assert_eq!(next_central(0, 3), 1);
    assert_eq!(next_central(2, 3), 0);
    assert_eq!(next_central(5, 3), 0);
    assert_eq!(get_local_ip(), "127.0.0.1");
    let msg = registration_request("CABA".to_string(), 9001);
    assert_eq!(msg.name, "CABA");
    assert_eq!(msg.sync_address, "127.0.0.1:9001");
    assert!(matches!(registration_step(true, None), RegistrationStep::Registered));
    match registration_step(false, Some("127.0.0.1:6790".to_string())) {
        RegistrationStep::AskLeader(a) => assert_eq!(a, "127.0.0.1:6790"),
        other => panic!("unexpected {:?}", other),
    }
    assert!(matches!(registration_step(false, None), RegistrationStep::TryNext));
}

#[test]
fn regional_reads_batch_replies() {
    assert!(matches!(classify_batch_reply(&[]), BatchReply::Confirmed));
    let ok = DataResponseMessage::new(6, 0, 3, None).serialize();
    assert!(matches!(classify_batch_reply(&ok), BatchReply::Confirmed));
    let redirect = DataResponseMessage::new(6, 1, 3, Some(b"127.0.0.1:6790".to_vec())).serialize();
    match classify_batch_reply(&redirect) {
        BatchReply::Redirect(a) => assert_eq!(a, "127.0.0.1:6790"),
        other => panic!("unexpected {:?}", other),
    }
    let refused = DataResponseMessage::new(6, 1, 3, None).serialize();
    assert!(matches!(classify_batch_reply(&refused), BatchReply::TryNext));
    assert!(matches!(classify_batch_reply(&[6, 0, 0]), BatchReply::Unreadable));
}

#[test]
fn station_config_endpoint() {
    let config = GasStationConfig {
        pump_listener_port: 7000,
        regional_address: "127.0.0.1".to_string(),
        regional_port: 9000,
        bulk_limit: 3,
        bulk_timeout_secs: 10,
    };
    assert_eq!(config.regional_endpoint(), "127.0.0.1:9000");
}

#[test]
fn station_packages_bulks_in_order() {
    assert!(should_package(3, 3, false));
    assert!(!should_package(2, 3, false));
    assert!(should_package(1, 3, true));
    assert!(!should_package(0, 3, true));

    let mut bulks: BulkBuffer<u32> = BulkBuffer::new();
    assert_eq!(bulks.last_bulk_id(), 0);
    bulks.push_sale(10);
    bulks.push_sale(11);
    assert_eq!(bulks.package(3, false), None);
    bulks.push_sale(12);
    assert_eq!(bulks.package(3, false), Some(1));
    bulks.push_sale(13);
    assert_eq!(bulks.package(3, true), Some(2));
    assert_eq!(bulks.last_bulk_id(), 2);
    assert_eq!(bulks.pending(), 0);
    assert_eq!(bulks.waiting(), 2);
    {
        let front = bulks.front().unwrap();
        assert_eq!(front.0, 1);
        assert_eq!(front.1, vec![10, 11, 12]);
    }
    bulks.settle(BulkOutcome::Failed);
    assert_eq!(bulks.front().unwrap().0, 1);
    bulks.settle(BulkOutcome::Committed);
    assert_eq!(bulks.front().unwrap().1, vec![13]);
    bulks.settle(BulkOutcome::Aborted);
    assert!(bulks.front().is_none());
    assert!(matches!(vote_step(true), VoteStep::Commit));
    assert!(matches!(vote_step(false), VoteStep::Abort));
    assert!(ack_confirms(4, 4));
    assert!(!ack_confirms(4, 5));
}

#[test]
fn pump_keeps_its_addresses() {
    let pump = Pump::new(7100, "127.0.0.1:7100".to_string());
    assert_eq!(pump.response_listener_port(), 7100);
    assert_eq!(pump.local_address(), "127.0.0.1:7100");
}

#[test]
fn book_author_is_the_first_listed() {
    let book = Book {
        title: "T".to_string(),
        ratings_count: Some("3".to_string()),
        authors: vec![RawAuthor { author_id: "a1".to_string() }, RawAuthor { author_id: "a2".to_string() }],
        publisher: None,
    };
    assert_eq!(book.author_id(), Some("a1".to_string()));
    let anonymous = Book { title: "U".to_string(), ratings_count: None, authors: vec![], publisher: None };
    assert_eq!(anonymous.author_id(), None);
}
