use gas_network::text::is_float_text;
use gas_network::commands::{
    change_login, parse_command, parse_command_with_quotes, query_data, redirect_target,
    register_new_account, registered_account, remove_regions, CompanyAdministrator, ParsedCommand,
};
use gas_network::messages::data_response::DataResponseMessage;
use gas_network::messages::query_data::QueryDataMessage;
use gas_network::messages::register_account::RegisterAccountMessage;
use gas_network::messages::remove_regions::RemoveRegionsMessage;

#[test]
fn commands_tokens_respect_quotes() {
    assert_eq!(
        parse_command_with_quotes("REG acme \"Acme Corp S.A.\""),
        vec!["REG".to_string(), "acme".to_string(), "Acme Corp S.A.".to_string()]
    );
    assert_eq!(parse_command_with_quotes("  a\t b  "), vec!["a".to_string(), "b".to_string()]);
    assert_eq!(parse_command_with_quotes("a\"\"b"), vec!["ab".to_string()]);
    assert_eq!(parse_command_with_quotes("\" x \""), vec![" x ".to_string()]);
    assert_eq!(parse_command_with_quotes(""), Vec::<String>::new());
}

#[test]
fn commands_parse_login_and_simple_words() {
    assert!(matches!(parse_command("login 72057594037927936\n"), ParsedCommand::LogIn(72057594037927936)));
    assert!(matches!(parse_command("LOGIN"), ParsedCommand::Null));
    assert!(matches!(parse_command("LOGIN abc"), ParsedCommand::Null));
    assert!(matches!(parse_command("logout"), ParsedCommand::LogOut));
    assert!(matches!(parse_command("Help"), ParsedCommand::Help));
    assert!(matches!(parse_command("exit"), ParsedCommand::Exit));
    assert!(matches!(parse_command("   "), ParsedCommand::Null));
    assert!(matches!(parse_command("DANCE"), ParsedCommand::Null));
}

#[test]
fn commands_parse_registrations() {
    match parse_command("REG acme \"Acme S.A.\"") {
        ParsedCommand::RegAcc(u, d) => {
            assert_eq!(u, "acme");
            assert_eq!(d, "Acme S.A.");
        }
        other => panic!("unexpected {:?}", other),
    }
    assert!(matches!(parse_command("REG acme"), ParsedCommand::Null));
    match parse_command("CARD 10000") {
        ParsedCommand::RegCard(l) => assert_eq!(l, "10000"),
        other => panic!("unexpected {:?}", other),
    }
}

#[test]
fn commands_parse_updates() {
    match parse_command("UPD -n \"Nueva Empresa\"") {
        ParsedCommand::UpdName(n) => assert_eq!(n, "Nueva Empresa"),
        other => panic!("unexpected {:?}", other),
    }
    match parse_command("UPD -a 75000") {
        ParsedCommand::UpdAccountLimit(l) => assert_eq!(l, "75000"),
        other => panic!("unexpected {:?}", other),
    }
    match parse_command("UPD -c 123456789 15000") {
        ParsedCommand::UpdCard(c, l) => {
            assert_eq!(c, 123456789);
            assert_eq!(l, "15000");
        }
        other => panic!("unexpected {:?}", other),
    }
    assert!(matches!(parse_command("UPD -c x 15000"), ParsedCommand::Null));
    match parse_command("UPD -r CABA:50000 SF:30000") {
        ParsedCommand::UpdRegions(r, l) => {
            assert_eq!(r, vec!["CABA".to_string(), "SF".to_string()]);
            assert_eq!(l, vec!["50000".to_string(), "30000".to_string()]);
        }
        other => panic!("unexpected {:?}", other),
    }
    assert!(matches!(parse_command("UPD -r CABA:1:2"), ParsedCommand::Null));
    assert!(matches!(parse_command("UPD -r CABA"), ParsedCommand::Null));
    match parse_command("UPD -d Mendoza SF") {
        ParsedCommand::RemoveRegions(r) => assert_eq!(r, vec!["Mendoza".to_string(), "SF".to_string()]),
        other => panic!("unexpected {:?}", other),
    }
    assert!(matches!(parse_command("UPD -x"), ParsedCommand::Null));
    assert!(matches!(parse_command("UPD"), ParsedCommand::Null));
}

#[test]
fn commands_parse_queries() {
    assert!(matches!(parse_command("QUERY -a"), ParsedCommand::Query(0, 0, i64::MIN, i64::MAX)));
    assert!(matches!(parse_command("QUERY -a 01-01-2024"), ParsedCommand::Query(0, 0, 1704067200, i64::MAX)));
    assert!(matches!(
        parse_command("QUERY -a 01-01-2024 31-12-2024"),
        ParsedCommand::Query(0, 0, 1704067200, 1735603200)
    ));
    assert!(matches!(parse_command("QUERY -a 2024-01-01"), ParsedCommand::Null));
    assert!(matches!(parse_command("QUERY -c 77"), ParsedCommand::Query(0, 77, i64::MIN, i64::MAX)));
    assert!(matches!(parse_command("QUERY -c 77 01-01-2024"), ParsedCommand::Query(0, 77, 1704067200, i64::MAX)));
    assert!(matches!(parse_command("QUERY -c"), ParsedCommand::Null));
    assert!(matches!(parse_command("QUERY -d"), ParsedCommand::Query(1, 0, 0, 0)));
    assert!(matches!(parse_command("QUERY -a a b c"), ParsedCommand::Null));
}

#[test]
fn commands_requests_are_framed_messages() {
    let framed = register_new_account("acme".to_string(), "Acme".to_string());
    let body = RegisterAccountMessage::new("acme".to_string(), "Acme".to_string()).serialize();
    assert_eq!(&framed[0..8], &(body.len() as u64).to_be_bytes());
    assert_eq!(&framed[8..], &body[..]);

    assert_eq!(remove_regions(vec!["SF".to_string()], &None), None);
    let framed = remove_regions(vec!["SF".to_string()], &Some(9)).unwrap();
    let body = RemoveRegionsMessage::new(9, vec!["SF".to_string()]).serialize();
    assert_eq!(&framed[8..], &body[..]);

    assert_eq!(query_data(0, 0, 1, 2, &None), None);
    let framed = query_data(0, 5, 1, 2, &Some(9)).unwrap();
    let body = QueryDataMessage::new(0, 9, 5, 1, 2).serialize();
    assert_eq!(framed.len(), 8 + body.len());
    assert_eq!(&framed[8..], &body[..]);
}

#[test]
fn commands_login_and_replies() {
    let mut id = None;
    assert!(!change_login(&5, &mut id));
    assert_eq!(id, Some(5));
    assert!(!change_login(&6, &mut id));
    assert_eq!(id, Some(6));

    let mut admin = CompanyAdministrator::new();
    assert_eq!(admin.account(), None);
    admin.log_in(3);
    assert_eq!(admin.account(), Some(3));
    admin.record_reply(None);
    assert_eq!(admin.account(), Some(3));
    admin.record_reply(Some(4));
    assert_eq!(admin.account(), Some(4));
    admin.log_out();
    assert_eq!(admin.account(), None);

    let ok = DataResponseMessage::new(0, 0, 77, None);
    assert_eq!(registered_account(&ok), Some(77));
    let other = DataResponseMessage::new(1, 0, 77, None);
    assert_eq!(registered_account(&other), None);

    let redirect = DataResponseMessage::new(2, 1, 4, Some(b"127.0.0.1:6792".to_vec()));
    assert_eq!(redirect_target(&redirect), Some("127.0.0.1:6792".to_string()));
    let plain_error = DataResponseMessage::new(2, 1, 4, Some(b"nope".to_vec()));
    assert_eq!(redirect_target(&plain_error), None);
    let success = DataResponseMessage::new(2, 0, 4, Some(b"a:b".to_vec()));
    assert_eq!(redirect_target(&success), None);
}

#[test]
fn command_words_are_read_in_any_case() {
    assert!(matches!(parse_command("eXiT"), ParsedCommand::Exit));
    assert!(matches!(parse_command("LoGoUt"), ParsedCommand::LogOut));
    assert!(matches!(parse_command("card 100"), ParsedCommand::RegCard(_)));
    assert!(matches!(parse_command("CARD 100"), ParsedCommand::RegCard(_)));
}

#[test]
fn surrounding_unicode_white_space_is_ignored() {
    assert!(matches!(parse_command("\u{3000}\tEXIT\u{a0}\u{2028}"), ParsedCommand::Exit));
}

#[test]
fn limits_must_read_as_numbers() {
    assert!(matches!(parse_command("UPD -r CABA:x"), ParsedCommand::Null));
    assert!(matches!(parse_command("UPD -r CABA:50000 SF:1.5e3"), ParsedCommand::UpdRegions(_, _)));
    assert!(matches!(parse_command("UPD -a abc"), ParsedCommand::Null));
    assert!(matches!(parse_command("UPD -c 12 1O"), ParsedCommand::Null));
    assert!(matches!(parse_command("UPD -c 12 10"), ParsedCommand::UpdCard(12, _)));
    for ok in ["CARD 100", "CARD .5", "CARD 5.", "CARD -1E-3", "CARD +inf", "CARD Infinity", "CARD NaN"] {
        assert!(matches!(parse_command(ok), ParsedCommand::RegCard(_)), "{}", ok);
    }
    for bad in ["CARD .", "CARD 1e", "CARD +", "CARD 1.2.3", "CARD 0x10", "CARD e5", "CARD infinit"] {
        assert!(matches!(parse_command(bad), ParsedCommand::Null), "{}", bad);
    }
}

#[test]
fn float_text_agrees_with_the_standard_reader() {
    for s in ["0", "1.", ".1", "1e5", "1E+5", "-0.0e-0", "inf", "-INF", "nan", "infinity", "", ".", "e", "1e", "++1", " 1", "1 ", "1_0", "1,5", "١"] {
        assert_eq!(is_float_text(s), s.parse::<f64>().is_ok(), "{:?}", s);
    }
}

#[test]
fn zero_width_space_is_not_trimmed() {
    assert_eq!("\u{200b}EXIT".trim(), "\u{200b}EXIT");
    assert!(matches!(parse_command("\u{200b}EXIT"), ParsedCommand::Null));
    assert!(matches!(parse_command("\u{85}\u{1680}EXIT\u{205f}"), ParsedCommand::Exit));
}
