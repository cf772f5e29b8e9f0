use djinn::commands::{accepted_job, EchoCommand, GetCommand, PutCommand, ReplyError};
use djinn::config::ApplicationConfig;
use djinn::conversions::{index_to_params, params_to_index};
use djinn::monkey::{MonkeyAction, UserMonkey};
use djinn::packets::{ControlPacket, ControlPacketType, Packet, TransferDenyReason};
use djinn::strmap::StrMap;
use djinn::wire::{decimal_text, parse_decimal};

#[test]
fn defaults_and_merge() {
    let defaults = ApplicationConfig::get_defaults();
    assert_eq!(defaults.host.as_deref(), Some("0.0.0.0"));
    assert_eq!(defaults.port, Some(7777));
    assert_eq!(defaults.serving_directory.as_deref(), Some("./files"));
    let user = ApplicationConfig { host: None, port: Some(9000), amount_of_threads: None, serving_directory: Some("/srv".to_string()) };
    let merged = defaults.merge(user);
    assert_eq!(merged.host.as_deref(), Some("0.0.0.0"));
    assert_eq!(merged.port, Some(9000));
    assert_eq!(merged.amount_of_threads, Some(4));
    assert_eq!(merged.serving_directory.as_deref(), Some("/srv"));
}

#[test]
fn deny_reasons_round_trip() {
    for r in [TransferDenyReason::FileNotFound, TransferDenyReason::FileWriteLock, TransferDenyReason::FileReadLock] {
        assert_eq!(TransferDenyReason::from_string(&r.to_string()), Some(r));
    }
    assert_eq!(TransferDenyReason::FileWriteLock.to_string(), "FileWriteLock");
    assert_eq!(TransferDenyReason::from_string("Other"), None);
}

#[test]
fn decimal_text_and_parse() {
    assert_eq!(decimal_text(0), "0");
    assert_eq!(decimal_text(1700000000), "1700000000");
    assert_eq!(parse_decimal("+42"), Some(42));
    assert_eq!(parse_decimal("0042"), Some(42));
    assert_eq!(parse_decimal("18446744073709551615"), Some(u64::MAX));
    assert_eq!(parse_decimal("18446744073709551616"), None);
    assert_eq!(parse_decimal(""), None);
    assert_eq!(parse_decimal("-1"), None);
    assert_eq!(parse_decimal("1a"), None);
}

#[test]
fn indexes_travel_as_text() {
    let mut ix = StrMap::new();
    ix.insert("/a".to_string(), 5u64);
    ix.insert("#timestamp".to_string(), 6u64);
    let params = index_to_params(&ix);
    assert_eq!(params.get("/a").unwrap(), "5");
    let back = params_to_index(&params).unwrap();
    assert_eq!(*back.get("/a").unwrap(), 5);
    assert_eq!(*back.get("#timestamp").unwrap(), 6);
    let mut bad = StrMap::new();
    bad.insert("/a".to_string(), "five".to_string());
    assert!(params_to_index(&bad).is_none());
}

#[test]
fn one_shot_commands() {
    let echo = EchoCommand::new();
    assert!(matches!(echo.request().control_packet_type, ControlPacketType::EchoRequest));
    let reply = Packet::Control(ControlPacket::new(ControlPacketType::EchoReply, StrMap::new()));
    assert!(echo.is_reply(&reply));
    let other = Packet::Control(ControlPacket::new(ControlPacketType::EchoRequest, StrMap::new()));
    assert!(!echo.is_reply(&other));

    let get = GetCommand::new("/f".to_string());
    let req = get.request();
    assert_eq!(req.params.get("direction").unwrap(), "toClient");
    let mut ack_params = StrMap::new();
    ack_params.insert("job_id".to_string(), "6".to_string());
    let ack = ControlPacket::new(ControlPacketType::TransferAck, ack_params);
    let start = get.start(&ack).unwrap();
    assert!(matches!(start.control_packet_type, ControlPacketType::TransferStart));
    assert_eq!(start.params.get("job_id").unwrap(), "6");
    assert_eq!(accepted_job(&ack), Ok(6));
    let deny = ControlPacket::new(ControlPacketType::TransferDeny, StrMap::new());
    assert_eq!(accepted_job(&deny), Err(ReplyError::Denied));
    assert_eq!(accepted_job(&ControlPacket::new(ControlPacketType::SyncAck, StrMap::new())), Err(ReplyError::UnexpectedPacket));

    let put = PutCommand::new("/g".to_string());
    let req = put.request(99);
    assert_eq!(req.params.get("direction").unwrap(), "toServer");
    assert_eq!(req.params.get("modified_time").unwrap(), "99");
}

#[test]
fn monkey_choices() {
    let monkey = UserMonkey::new("t".to_string());
    assert_eq!(monkey.amount_of_files, 20);
    for _ in 0..50 {
        let a = monkey.random_action();
        assert!(matches!(a, MonkeyAction::Create | MonkeyAction::Update | MonkeyAction::Delete));
        assert!(monkey.random_file(3) < 3);
        assert!(monkey.random_fill() <= 100);
    }
    let unused = monkey.unused_numbers(&vec![0, 2, 19]);
    assert_eq!(unused.len(), 17);
    assert!(!unused.contains(&2));
    assert!(unused.contains(&1));
}
