use djinn::index_comparer::SourceOfTruth;
use djinn::jobs::{JobStatus, JobType};
use djinn::packets::{ControlPacket, ControlPacketType, DataPacket};
use djinn::server::{
    CommandError, ConnectionData, ConnectionUpdate, ConnectionUpdateType, DataAction, EchoRequestCommand,
    PacketHandler, ServerCommand, SyncIndexResponseCommand, SyncIndexUpdateCommand, SyncRequestCommand, TransferRequestCommand,
    TransferStartCommand, stays_below_root,
};
use djinn::strmap::StrMap;

fn params(pairs: &[(&str, &str)]) -> StrMap<String> {
    let mut m = StrMap::new();
    for (k, v) in pairs {
        m.insert(k.to_string(), v.to_string());
    }
    m
}

fn index(pairs: &[(&str, u64)]) -> StrMap<u64> {
    let mut m = StrMap::new();
    for (k, v) in pairs {
        m.insert(k.to_string(), *v);
    }
    m
}

fn control(kind: ControlPacketType, job_id: Option<u32>, pairs: &[(&str, &str)]) -> ControlPacket {
    let mut p = ControlPacket::new(kind, params(pairs));
    p.job_id = job_id;
    p
}

#[test]
fn echo_is_answered() {
    let reply = EchoRequestCommand {}.execute();
    assert!(matches!(reply.control_packet_type, ControlPacketType::EchoReply));
    assert_eq!(reply.params.len(), 0);
}

#[test]
fn job_ids_count_up_from_one() {
    let mut data = ConnectionData::new(5);
    assert_eq!(data.new_job_id(), Some(1));
    assert_eq!(data.new_job_id(), Some(2));
    data.new_job_id = u32::MAX;
    assert_eq!(data.new_job_id(), None);
}

#[test]
fn download_of_missing_file_is_denied() {
    let mut data = ConnectionData::new(1);
    let req = control(
        ControlPacketType::TransferRequest,
        None,
        &[("file_path", "/a.txt"), ("direction", "toClient"), ("transfer_id", "3")],
    );
    let reply = TransferRequestCommand {}.execute(&mut data, &req, false, false, 0).unwrap();
    assert!(matches!(reply.control_packet_type, ControlPacketType::TransferDeny));
    assert_eq!(reply.params.get("reason").unwrap(), "FileNotFound");
    assert_eq!(reply.params.get("transfer_id").unwrap(), "3");
    assert_eq!(data.jobs.len(), 0);
}

#[test]
fn upload_onto_locked_file_is_denied() {
    let mut data = ConnectionData::new(1);
    let req = control(
        ControlPacketType::TransferRequest,
        None,
        &[("file_path", "/a.txt"), ("direction", "toServer"), ("transfer_id", "4"), ("modified_time", "9")],
    );
    let reply = TransferRequestCommand {}.execute(&mut data, &req, true, true, 0).unwrap();
    assert_eq!(reply.params.get("reason").unwrap(), "FileWriteLock");
    assert_eq!(reply.params.get("transfer_id").unwrap(), "4");
}

#[test]
fn download_is_acknowledged_with_time() {
    let mut data = ConnectionData::new(1);
    let req = control(
        ControlPacketType::TransferRequest,
        None,
        &[("file_path", "/a.txt"), ("direction", "toClient"), ("transfer_id", "0")],
    );
    let reply = TransferRequestCommand {}.execute(&mut data, &req, true, false, 1234).unwrap();
    assert!(matches!(reply.control_packet_type, ControlPacketType::TransferAck));
    assert_eq!(reply.params.get("job_id").unwrap(), "1");
    assert_eq!(reply.params.get("transfer_id").unwrap(), "0");
    assert_eq!(reply.params.get("modified_time").unwrap(), "1234");
    assert_eq!(data.jobs.len(), 1);
    assert_eq!(data.jobs[0].id, 1);
    assert!(matches!(data.jobs[0].job_type, JobType::Transfer));
    assert!(matches!(data.jobs[0].status, JobStatus::Pending));
}

#[test]
fn malformed_transfer_requests_fail() {
    let mut data = ConnectionData::new(1);
    let missing = control(ControlPacketType::TransferRequest, None, &[("file_path", "/a")]);
    assert_eq!(TransferRequestCommand {}.execute(&mut data, &missing, true, false, 0).err(), Some(CommandError::MissingParameter));
    let bad = control(
        ControlPacketType::TransferRequest,
        None,
        &[("file_path", "/a"), ("direction", "sideways"), ("transfer_id", "1")],
    );
    assert_eq!(TransferRequestCommand {}.execute(&mut data, &bad, true, false, 0).err(), Some(CommandError::BadParameter));
}

#[test]
fn upload_runs_to_completion() {
    let mut data = ConnectionData::new(1);
    let req = control(
        ControlPacketType::TransferRequest,
        None,
        &[("file_path", "/up.txt"), ("direction", "toServer"), ("transfer_id", "0"), ("modified_time", "77")],
    );
    let reply = TransferRequestCommand {}.execute(&mut data, &req, false, false, 0).unwrap();
    assert!(reply.params.get("modified_time").is_none());
    let handler = PacketHandler {};
    let first = handler.handle_data_packet(&mut data, &DataPacket::new(1, vec![1, 2], 1)).unwrap();
    assert!(first.create);
    assert_eq!(first.action, DataAction::Append);
    assert_eq!(first.file_path, "/up.txt");
    let second = handler.handle_data_packet(&mut data, &DataPacket::new(1, vec![3], 2)).unwrap();
    assert!(!second.create);
    let last = handler.handle_data_packet(&mut data, &DataPacket::new(1, vec![], 3)).unwrap();
    assert_eq!(last.action, DataAction::Finish(77));
    assert!(matches!(data.jobs[0].status, JobStatus::Finished));
    assert_eq!(
        handler.handle_data_packet(&mut data, &DataPacket::new(1, vec![], 4)).err(),
        Some(CommandError::WrongJobState)
    );
    assert_eq!(
        handler.handle_data_packet(&mut data, &DataPacket::new(9, vec![], 1)).err(),
        Some(CommandError::UnknownJob)
    );
}

#[test]
fn transfer_start_runs_the_pending_job() {
    let mut data = ConnectionData::new(1);
    let req = control(
        ControlPacketType::TransferRequest,
        None,
        &[("file_path", "/a.txt"), ("direction", "toClient"), ("transfer_id", "0")],
    );
    TransferRequestCommand {}.execute(&mut data, &req, true, false, 5).unwrap();
    let start = control(ControlPacketType::TransferStart, None, &[("job_id", "1")]);
    let (id, path) = TransferStartCommand {}.execute(&mut data, &start).unwrap();
    assert_eq!(id, 1);
    assert_eq!(path, "/a.txt");
    assert!(matches!(data.jobs[0].status, JobStatus::Running));
    assert_eq!(TransferStartCommand {}.execute(&mut data, &start).err(), Some(CommandError::WrongJobState));
    assert!(TransferStartCommand::finish(&mut data, 0).is_none());
    assert!(matches!(data.jobs[0].status, JobStatus::Finished));
    assert!(TransferStartCommand::cancel_check_due(5));
    assert!(!TransferStartCommand::cancel_check_due(6));
}

#[test]
fn canceled_transfer_announces_cancel() {
    let mut data = ConnectionData::new(1);
    let req = control(
        ControlPacketType::TransferRequest,
        None,
        &[("file_path", "/a.txt"), ("direction", "toClient"), ("transfer_id", "0")],
    );
    TransferRequestCommand {}.execute(&mut data, &req, true, false, 5).unwrap();
    data.set_status(0, JobStatus::Canceled);
    let cancel = TransferStartCommand::finish(&mut data, 0).unwrap();
    assert!(matches!(cancel.control_packet_type, ControlPacketType::TransferCancel));
    assert_eq!(cancel.params.get("job_id").unwrap(), "1");
}

#[test]
fn sync_request_opens_a_session() {
    let mut data = ConnectionData::new(1);
    let req = control(ControlPacketType::SyncRequest, None, &[("path", "docs")]);
    let denied = SyncRequestCommand {}.execute(&mut data, &req, false).unwrap();
    assert_eq!(denied.len(), 1);
    assert!(matches!(denied[0].control_packet_type, ControlPacketType::SyncDeny));
    assert_eq!(denied[0].params.get("reason").unwrap(), "FileNotFound");
    let replies = SyncRequestCommand {}.execute(&mut data, &req, true).unwrap();
    assert_eq!(replies.len(), 2);
    assert!(matches!(replies[0].control_packet_type, ControlPacketType::SyncAck));
    assert_eq!(replies[0].params.get("job_id").unwrap(), "1");
    assert!(matches!(replies[1].control_packet_type, ControlPacketType::SyncIndexRequest));
    assert_eq!(replies[1].job_id, Some(1));
    assert!(matches!(data.jobs[0].job_type, JobType::Sync));
}

fn session() -> ConnectionData {
    let mut data = ConnectionData::new(1);
    let req = control(ControlPacketType::SyncRequest, None, &[("path", "docs")]);
    SyncRequestCommand {}.execute(&mut data, &req, true).unwrap();
    data
}

#[test]
fn client_index_update_with_self_delete() {
    let mut data = session();
    let update = control(ControlPacketType::SyncIndexUpdate, Some(1), &[("a.txt", "0"), ("b.txt", "300"), ("#timestamp", "200")]);
    let server = index(&[("a.txt", 150), ("c.txt", 10), ("#timestamp", 150)]);
    let mut deleted = StrMap::new();
    let out = SyncIndexUpdateCommand { source_of_truth: SourceOfTruth::Client }
        .execute(&mut data, &update, &server, &mut deleted, 999)
        .unwrap();
    assert_eq!(out.self_deletes.len(), 1);
    assert_eq!(*out.self_deletes.get("a.txt").unwrap(), 999);
    assert_eq!(*deleted.get("a.txt").unwrap(), 999);
    assert!(matches!(out.reply.control_packet_type, ControlPacketType::SyncUpdate));
    assert_eq!(out.reply.job_id, Some(1));
    assert_eq!(out.reply.params.len(), 2);
    assert_eq!(out.reply.params.get("b.txt").unwrap(), "PUT");
    assert_eq!(out.reply.params.get("c.txt").unwrap(), "GET");
    assert!(out.reply.params.get("a.txt").is_none());
    assert_eq!(*data.last_index.get("b.txt").unwrap(), 300);
}

#[test]
fn initial_index_uses_server_truth() {
    let mut data = session();
    let response = control(ControlPacketType::SyncIndexResponse, Some(1), &[("a.txt", "0"), ("#timestamp", "200")]);
    let server = index(&[("a.txt", 150)]);
    let mut deleted = StrMap::new();
    let out = SyncIndexResponseCommand {}.execute(&mut data, &response, &server, &mut deleted, 999).unwrap();
    assert_eq!(out.self_deletes.len(), 0);
    assert_eq!(out.reply.params.get("a.txt").unwrap(), "GET");
    assert_eq!(deleted.len(), 0);
}

#[test]
fn index_update_errors() {
    let mut data = session();
    let server = index(&[]);
    let mut deleted = StrMap::new();
    let cmd = SyncIndexUpdateCommand { source_of_truth: SourceOfTruth::Client };
    let no_job = control(ControlPacketType::SyncIndexUpdate, None, &[]);
    assert_eq!(cmd.execute(&mut data, &no_job, &server, &mut deleted, 1).err(), Some(CommandError::UnknownJob));
    let unknown = control(ControlPacketType::SyncIndexUpdate, Some(7), &[]);
    assert_eq!(cmd.execute(&mut data, &unknown, &server, &mut deleted, 1).err(), Some(CommandError::UnknownJob));
    let bad = control(ControlPacketType::SyncIndexUpdate, Some(1), &[("a", "x")]);
    assert_eq!(cmd.execute(&mut data, &bad, &server, &mut deleted, 1).err(), Some(CommandError::BadParameter));
}

#[test]
fn broadcast_from_another_connection_sends_a_diff() {
    let mut data = session();
    data.last_index = index(&[("a.txt", 10), ("gone.txt", 5)]);
    let update = ConnectionUpdate {
        update_type: ConnectionUpdateType::ServerIndexUpdated,
        connection_uuid: 2,
        data: index(&[("a.txt", 20), ("new.txt", 3)]),
    };
    let reply = data.handle_connection_update(&update).unwrap();
    assert!(matches!(reply.control_packet_type, ControlPacketType::SyncUpdate));
    assert_eq!(reply.job_id, Some(1));
    assert_eq!(reply.params.get("a.txt").unwrap(), "GET");
    assert_eq!(reply.params.get("new.txt").unwrap(), "GET");
    assert_eq!(reply.params.get("gone.txt").unwrap(), "DELETE");
    let own = ConnectionUpdate { update_type: ConnectionUpdateType::ServerIndexUpdated, connection_uuid: 1, data: index(&[]) };
    assert!(data.handle_connection_update(&own).is_none());
    let lonely = ConnectionData::new(3);
    assert!(lonely.handle_connection_update(&update).is_none());
}

#[test]
fn connections_get_distinct_ids() {
    let a = ConnectionData::open();
    let b = ConnectionData::open();
    assert_ne!(a.uuid, b.uuid);
    assert_eq!(a.new_job_id, 0);
}

#[test]
fn paths_that_climb_out_are_refused() {
    assert!(stays_below_root("/a/b.txt"));
    assert!(stays_below_root("/a/..b/c"));
    assert!(stays_below_root("..."));
    assert!(!stays_below_root(".."));
    assert!(!stays_below_root("/a/../../etc/passwd"));
    assert!(!stays_below_root("a/.."));
    let mut data = ConnectionData::new(1);
    let req = control(
        ControlPacketType::TransferRequest,
        None,
        &[("file_path", "../secret"), ("direction", "toClient"), ("transfer_id", "0")],
    );
    assert_eq!(TransferRequestCommand {}.execute(&mut data, &req, true, false, 0).err(), Some(CommandError::BadParameter));
    let sync = control(ControlPacketType::SyncRequest, None, &[("path", "docs/../..")]);
    assert_eq!(SyncRequestCommand {}.execute(&mut data, &sync, true).err(), Some(CommandError::BadParameter));
    assert_eq!(data.jobs.len(), 0);
}

#[test]
fn server_routes_control_packets() {
    let h = PacketHandler {};
    let route = |k| h.handle_control_packet(&control(k, None, &[]));
    assert_eq!(route(ControlPacketType::EchoRequest), Ok(ServerCommand::Echo));
    assert_eq!(route(ControlPacketType::SyncIndexResponse), Ok(ServerCommand::SyncIndex(SourceOfTruth::Server)));
    assert_eq!(route(ControlPacketType::SyncIndexUpdate), Ok(ServerCommand::SyncIndex(SourceOfTruth::Client)));
    assert_eq!(route(ControlPacketType::TransferAck), Err(CommandError::UnexpectedPacket));
}
