//! The client's one-shot commands: an echo, and a single download or
//! upload outside a sync session.
use vstd::prelude::*;
use crate::client::read_u32_param;
use crate::packets::{ControlPacket, ControlPacketType, Packet};
use crate::server::control_view;
use crate::strmap::StrMap;
use crate::wire::{decimal, decimal_text};

verus! {

/// How a one-shot command's request was answered.
#[derive(Clone, Copy, Debug, PartialEq, Eq, Structural)]
pub enum ReplyError {
    /// The server refused.
    Denied,
    /// The server answered with a packet of another kind.
    UnexpectedPacket,
    /// The answer lacks a parameter or holds a malformed one.
    BadReply,
}

pub struct EchoCommand {}

impl EchoCommand {
    pub fn new() -> Self {
        EchoCommand {}
    }

    pub fn request(&self) -> (r: ControlPacket)
        ensures
            r.wf(),
            r.view() == control_view(ControlPacketType::EchoRequest, None, Map::empty()),
    {
        ControlPacket::new(ControlPacketType::EchoRequest, StrMap::new())
    }

    /// Whether `reply` is the echo's answer.
    pub fn is_reply(&self, reply: &Packet) -> (r: bool)
        ensures
            r == (reply matches Packet::Control(c) && c.control_packet_type == ControlPacketType::EchoReply),
    {
        match reply {
            Packet::Control(c) => c.control_packet_type == ControlPacketType::EchoReply,
            Packet::Data(_) => false,
        }
    }
}

/// The request for a single transfer of `file_path`, as transfer 0.
pub open spec fn single_request_view(file_path: Seq<char>, direction: Seq<char>) -> Map<Seq<char>, Seq<char>> {
    Map::empty().insert("file_path"@, file_path).insert("transfer_id"@, "0"@).insert("direction"@, direction)
}

/// Reads the job id out of a transfer's acknowledgement.
pub fn accepted_job(reply: &ControlPacket) -> (r: Result<u32, ReplyError>)
    requires
        reply.wf(),
    ensures
        reply.control_packet_type == ControlPacketType::TransferDeny ==> r == Err::<u32, ReplyError>(ReplyError::Denied),
        reply.control_packet_type != ControlPacketType::TransferDeny && reply.control_packet_type
            != ControlPacketType::TransferAck ==> r == Err::<u32, ReplyError>(ReplyError::UnexpectedPacket),
        reply.control_packet_type == ControlPacketType::TransferAck ==> match crate::client::u32_param(
            reply.params.map(),
            "job_id"@,
        ) {
            Ok(j) => r == Ok::<u32, ReplyError>(j),
            Err(_) => r == Err::<u32, ReplyError>(ReplyError::BadReply),
        },
{
    match reply.control_packet_type {
        ControlPacketType::TransferDeny => Err(ReplyError::Denied),
        ControlPacketType::TransferAck => match read_u32_param(&reply.params, "job_id") {
            Ok(j) => Ok(j),
            Err(_) => Err(ReplyError::BadReply),
        },
        _ => Err(ReplyError::UnexpectedPacket),
    }
}

pub struct GetCommand {
    pub file_path: String,
}

impl GetCommand {
    pub fn new(file_path: String) -> (r: Self)
        ensures
            r.file_path == file_path,
    {
        GetCommand { file_path }
    }

    /// Asks for the server's copy of the file.
    pub fn request(&self) -> (r: ControlPacket)
        ensures
            r.wf(),
            r.view() == control_view(
                ControlPacketType::TransferRequest,
                None,
                single_request_view(self.file_path@, "toClient"@),
            ),
    {
        let mut params: StrMap<String> = StrMap::new();
        params.insert("file_path".to_owned(), self.file_path.clone());
        params.insert("transfer_id".to_owned(), "0".to_owned());
        params.insert("direction".to_owned(), "toClient".to_owned());
        ControlPacket::new(ControlPacketType::TransferRequest, params)
    }

    /// On an acknowledgement, the packet that starts the download.
    pub fn start(&self, reply: &ControlPacket) -> (r: Result<ControlPacket, ReplyError>)
        requires
            reply.wf(),
        ensures
            match r {
                Ok(p) => reply.control_packet_type == ControlPacketType::TransferAck && p.wf() && (
                crate::client::u32_param(reply.params.map(), "job_id"@) matches Ok(j) && p.view()
                    == control_view(
                    ControlPacketType::TransferStart,
                    None,
                    Map::empty().insert("job_id"@, decimal(j as nat)),
                )),
                Err(e) => reply.control_packet_type != ControlPacketType::TransferAck || !(
                crate::client::u32_param(reply.params.map(), "job_id"@) is Ok),
            },
    {
        let j = match accepted_job(reply) {
            Ok(j) => j,
            Err(e) => {
                return Err(e);
            },
        };
        let mut params: StrMap<String> = StrMap::new();
        params.insert("job_id".to_owned(), decimal_text(j as u64));
        Ok(ControlPacket::new(ControlPacketType::TransferStart, params))
    }
}

pub struct PutCommand {
    pub file_path: String,
}

impl PutCommand {
    pub fn new(file_path: String) -> (r: Self)
        ensures
            r.file_path == file_path,
    {
        PutCommand { file_path }
    }

    /// Announces the client's copy of the file, last modified at
    /// `modified_time`.
    pub fn request(&self, modified_time: u64) -> (r: ControlPacket)
        ensures
            r.wf(),
            r.view() == control_view(
                ControlPacketType::TransferRequest,
                None,
                single_request_view(self.file_path@, "toServer"@).insert("modified_time"@, decimal(modified_time as nat)),
            ),
    {
        let mut params: StrMap<String> = StrMap::new();
        params.insert("file_path".to_owned(), self.file_path.clone());
        params.insert("transfer_id".to_owned(), "0".to_owned());
        params.insert("direction".to_owned(), "toServer".to_owned());
        params.insert("modified_time".to_owned(), decimal_text(modified_time));
        ControlPacket::new(ControlPacketType::TransferRequest, params)
    }
}

} // verus!
