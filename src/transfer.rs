//! The sending side of a transfer: a file cut into data packets of at most
//! `MAX_PAYLOAD` bytes, numbered from one, ended by an empty packet.
use vstd::prelude::*;
use crate::packets::{DataPacket, MAX_PAYLOAD};

verus! {

pub struct DataPacketGenerator {
    pub job_id: u32,
    pub path: String,
    pub packet_count: u32,
    pub ended: bool,
}

impl DataPacketGenerator {
    pub fn new(job_id: u32, path: String) -> (r: Self)
        ensures
            r.job_id == job_id,
            r.path == path,
            r.packet_count == 0,
            !r.ended,
    {
        DataPacketGenerator { job_id, path, packet_count: 0, ended: false }
    }

    /// The packet for the next `chunk` of the file, as read: a non-empty
    /// chunk gives the next numbered packet; the empty chunk at the end of
    /// the file gives the empty packet that ends the stream; after that,
    /// nothing.
    pub fn next_packet(&mut self, chunk: Vec<u8>) -> (r: Option<DataPacket>)
        requires
            chunk@.len() <= MAX_PAYLOAD,
            old(self).packet_count < u32::MAX,
        ensures
            final(self).job_id == old(self).job_id,
            final(self).path == old(self).path,
            old(self).ended ==> r is None && *final(self) == *old(self),
            !old(self).ended ==> (r matches Some(p) && p.wf() && p.job_id == old(self).job_id
                && p.packet_number == old(self).packet_count + 1 && p.data@ == chunk@),
            !old(self).ended ==> final(self).packet_count == old(self).packet_count + 1
                && final(self).ended == (chunk@.len() == 0),
    {
        if self.ended {
            return None;
        }
        let ended = chunk.len() == 0;
        self.packet_count = self.packet_count + 1;
        self.ended = ended;
        Some(DataPacket::new(self.job_id, chunk, self.packet_count))
    }
}

} // verus!
