use djinn::client::{
    index_response, parse_action, ClientError, ClientStep, FsPoller, PacketHandler, SyncManager, TransferDirection,
    TransferHandler, TransferStatus,
};
use djinn::index_comparer::Action;
use djinn::packets::{ControlPacket, ControlPacketType, DataPacket};
use djinn::server::DataAction;
use djinn::strmap::StrMap;

fn params(pairs: &[(&str, &str)]) -> StrMap<String> {
    let mut m = StrMap::new();
    for (k, v) in pairs {
        m.insert(k.to_string(), v.to_string());
    }
    m
}

fn index(pairs: &[(&str, u64)]) -> StrMap<u64> {
    let mut m = StrMap::new();
    for (k, v) in pairs {
        m.insert(k.to_string(), *v);
    }
    m
}

fn control(kind: ControlPacketType, pairs: &[(&str, &str)]) -> ControlPacket {
    ControlPacket::new(kind, params(pairs))
}

#[test]
fn sync_update_makes_checklist_and_steps() {
    let mut m = SyncManager::new("docs".to_string(), "/tmp/t".to_string());
    let update = control(ControlPacketType::SyncUpdate, &[("a", "GET"), ("b", "PUT"), ("c", "DELETE"), ("d", "ODD")]);
    let steps = m.handle_sync_update(&update);
    assert_eq!(steps.len(), 3);
    assert_eq!(steps[0], ("a".to_string(), Action::Get));
    assert_eq!(steps[1], ("b".to_string(), Action::Put));
    assert_eq!(steps[2], ("c".to_string(), Action::Delete));
    assert!(m.is_syncing);
    assert_eq!(m.current_sync_update_checklist.len(), 4);
    // A second update while syncing is dropped.
    assert_eq!(m.handle_sync_update(&update).len(), 0);
    for k in ["a", "b", "c"] {
        m.write_off_sync_update_checklist(k.to_string());
        assert!(m.is_syncing);
    }
    m.write_off_sync_update_checklist("d".to_string());
    assert!(!m.is_syncing);
    assert_eq!(m.current_sync_update_checklist.len(), 0);
}

#[test]
fn empty_update_does_not_start_a_sync() {
    let mut m = SyncManager::new("docs".to_string(), "t".to_string());
    let steps = m.handle_sync_update(&control(ControlPacketType::SyncUpdate, &[]));
    assert_eq!(steps.len(), 0);
    assert!(!m.is_syncing);
}

#[test]
fn transfer_requests() {
    let mut m = SyncManager::new("docs".to_string(), "t".to_string());
    let handler = TransferHandler::new();
    let get = handler.start_get_file(&mut m, "/a".to_string()).unwrap();
    assert!(matches!(get.control_packet_type, ControlPacketType::TransferRequest));
    assert_eq!(get.params.get("direction").unwrap(), "toClient");
    assert_eq!(get.params.get("transfer_id").unwrap(), "0");
    assert_eq!(get.params.get("file_path").unwrap(), "/a");
    let put = handler.start_put_file(&mut m, "/b".to_string(), 1234).unwrap();
    assert_eq!(put.params.get("direction").unwrap(), "toServer");
    assert_eq!(put.params.get("transfer_id").unwrap(), "1");
    assert_eq!(put.params.get("modified_time").unwrap(), "1234");
    assert_eq!(m.transfers.len(), 2);
    assert!(matches!(m.transfers[1].direction, TransferDirection::ToServer));
    assert!(matches!(m.transfers[1].status, TransferStatus::Requested));
    assert_eq!(m.get_transfer_by_id(1), Some(1));
    assert_eq!(m.get_transfer_by_id(5), None);
}

#[test]
fn download_flow() {
    let mut m = SyncManager::new("docs".to_string(), "t".to_string());
    m.handle_sync_update(&control(ControlPacketType::SyncUpdate, &[("/a", "GET")]));
    let handler = TransferHandler::new();
    handler.start_get_file(&mut m, "/a".to_string()).unwrap();
    let packets = PacketHandler::new();
    let ack = control(
        ControlPacketType::TransferAck,
        &[("job_id", "8"), ("transfer_id", "0"), ("modified_time", "555")],
    );
    match packets.handle_control_packet(&mut m, &ack).unwrap() {
        ClientStep::Send(p) => {
            assert!(matches!(p.control_packet_type, ControlPacketType::TransferStart));
            assert_eq!(p.params.get("job_id").unwrap(), "8");
        }
        _ => panic!("expected a transfer start"),
    }
    assert_eq!(m.get_transfer_by_job_id(8), Some(0));
    let first = packets.handle_data_packet(&mut m, &DataPacket::new(8, vec![1], 1)).unwrap();
    assert!(first.create);
    assert_eq!(first.action, DataAction::Append);
    let last = packets.handle_data_packet(&mut m, &DataPacket::new(8, vec![], 2)).unwrap();
    assert!(!last.create);
    assert_eq!(last.action, DataAction::Finish(555));
    assert_eq!(last.file_path, "/a");
    assert!(matches!(m.transfers[0].status, TransferStatus::Completed));
    assert!(!m.is_syncing);
    assert!(matches!(
        packets.handle_data_packet(&mut m, &DataPacket::new(8, vec![], 3)),
        Err(ClientError::NotInProgress)
    ));
    assert!(matches!(
        packets.handle_data_packet(&mut m, &DataPacket::new(99, vec![], 1)),
        Err(ClientError::UnknownTransfer)
    ));
}

#[test]
fn upload_ack_and_deny() {
    let mut m = SyncManager::new("docs".to_string(), "t".to_string());
    let handler = TransferHandler::new();
    handler.start_put_file(&mut m, "/b".to_string(), 1).unwrap();
    handler.start_put_file(&mut m, "/c".to_string(), 1).unwrap();
    let packets = PacketHandler::new();
    let ack = control(ControlPacketType::TransferAck, &[("job_id", "3"), ("transfer_id", "0")]);
    assert!(matches!(packets.handle_control_packet(&mut m, &ack).unwrap(), ClientStep::SendFile(0)));
    assert_eq!(m.transfers[0].job_id, 3);
    let deny = control(ControlPacketType::TransferDeny, &[("reason", "FileWriteLock"), ("transfer_id", "1")]);
    assert!(matches!(packets.handle_control_packet(&mut m, &deny).unwrap(), ClientStep::Nothing));
    assert!(matches!(m.transfers[1].status, TransferStatus::Denied));
    let unknown = control(ControlPacketType::TransferDeny, &[("transfer_id", "9")]);
    assert!(matches!(packets.handle_control_packet(&mut m, &unknown), Err(ClientError::UnknownTransfer)));
}

#[test]
fn session_packets() {
    let mut m = SyncManager::new("docs".to_string(), "t".to_string());
    let packets = PacketHandler::new();
    let ack = control(ControlPacketType::SyncAck, &[("job_id", "4")]);
    assert!(matches!(packets.handle_control_packet(&mut m, &ack).unwrap(), ClientStep::StartPolling(4)));
    assert_eq!(m.job_id, Some(4));
    let request = control(ControlPacketType::SyncIndexRequest, &[]);
    assert!(matches!(packets.handle_control_packet(&mut m, &request).unwrap(), ClientStep::SendIndex(Some(4))));
    let deny = control(ControlPacketType::SyncDeny, &[("reason", "FileNotFound")]);
    assert!(matches!(packets.handle_control_packet(&mut m, &deny), Err(ClientError::SyncDenied)));
    let odd = control(ControlPacketType::EchoReply, &[]);
    assert!(matches!(packets.handle_control_packet(&mut m, &odd), Err(ClientError::UnexpectedPacket)));
    let bad = control(ControlPacketType::SyncAck, &[("job_id", "x")]);
    assert!(matches!(packets.handle_control_packet(&mut m, &bad), Err(ClientError::BadParameter)));
    let missing = control(ControlPacketType::SyncAck, &[]);
    assert!(matches!(packets.handle_control_packet(&mut m, &missing), Err(ClientError::MissingParameter)));
}

#[test]
fn index_response_carries_times() {
    let p = index_response(Some(4), &index(&[("/a", 12), ("#timestamp", 99)]));
    assert!(matches!(p.control_packet_type, ControlPacketType::SyncIndexResponse));
    assert_eq!(p.job_id, Some(4));
    assert_eq!(p.params.get("/a").unwrap(), "12");
    assert_eq!(p.params.get("#timestamp").unwrap(), "99");
}

#[test]
fn poller_sends_changes_and_deletions() {
    let mut poller = FsPoller::new("t".to_string(), 4);
    poller.last_sent = index(&[("/a", 1), ("/b", 2), ("#timestamp", 10)]);
    // Nothing changed but the build time.
    assert!(poller.tick(false, index(&[("/a", 1), ("/b", 2), ("#timestamp", 11)])).is_none());
    // /b is gone and /c is new.
    let p = poller.tick(false, index(&[("/a", 1), ("/c", 3), ("#timestamp", 12)])).unwrap();
    assert!(matches!(p.control_packet_type, ControlPacketType::SyncIndexUpdate));
    assert_eq!(p.job_id, Some(4));
    assert_eq!(p.params.get("/b").unwrap(), "0");
    assert_eq!(p.params.get("/c").unwrap(), "3");
    assert_eq!(p.params.get("/a").unwrap(), "1");
    assert_eq!(p.params.get("#timestamp").unwrap(), "12");
    assert_eq!(*poller.last_sent.get("/c").unwrap(), 3);
}

#[test]
fn poller_waits_out_a_sync_then_sends() {
    let mut poller = FsPoller::new("t".to_string(), 4);
    poller.last_sent = index(&[("/a", 1)]);
    assert!(poller.tick(true, index(&[("/a", 2)])).is_none());
    assert!(poller.was_just_syncing);
    let p = poller.tick(false, index(&[("/a", 1)])).unwrap();
    assert_eq!(p.params.get("/a").unwrap(), "1");
    assert!(!poller.was_just_syncing);
    assert!(poller.tick(false, index(&[("/a", 1)])).is_none());
}

#[test]
fn action_names_parse() {
    assert_eq!(parse_action("GET"), Some(Action::Get));
    assert_eq!(parse_action("PUT"), Some(Action::Put));
    assert_eq!(parse_action("DELETE"), Some(Action::Delete));
    assert_eq!(parse_action("SELF_DELETE"), Some(Action::SelfDelete));
    assert_eq!(parse_action("get"), None);
}
