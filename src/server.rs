//! The server's side of a connection as a state machine: each handler takes
//! the connection's state and a packet, plus what the caller found on disk,
//! and returns the packets to send and the file work to do.
use vstd::prelude::*;
use crate::conversions::{all_decimal, copy_index, merge_index, params_index, params_to_index, plan_params, plan_to_params};
use crate::index_comparer::{plan, Action, IndexComparer, SourceOfTruth};
use crate::jobs::{Job, JobStatus, JobType};
use crate::packets::{copy_params, reason_name, ControlPacket, ControlPacketType, ControlView, DataPacket, TransferDenyReason};
use crate::strmap::{StrMap, text_eq};
use crate::wire::{decimal, decimal_text, decimal_value, parse_decimal};

verus! {

/// Why the server drops a connection on a packet.
#[derive(Clone, Copy, Debug, PartialEq, Eq, Structural)]
pub enum CommandError {
    MissingParameter,
    BadParameter,
    UnknownJob,
    WrongJobType,
    WrongJobState,
    OutOfJobIds,
    /// A control packet of a kind that a client never sends.
    UnexpectedPacket,
}

pub open spec fn param(m: Map<Seq<char>, Seq<char>>, k: Seq<char>) -> Option<Seq<char>> {
    if m.contains_key(k) {
        Some(m[k])
    } else {
        None
    }
}

/// A `..` segment starts at position `i` of path `p`.
pub open spec fn parent_segment_at(p: Seq<char>, i: int) -> bool {
    &&& 0 <= i && i + 2 <= p.len()
    &&& p[i] == '.' && p[i + 1] == '.'
    &&& (i == 0 || p[i - 1] == '/')
    &&& (i + 2 == p.len() || p[i + 2] == '/')
}

/// The path climbs out of the directory it is relative to.
pub open spec fn escapes_root(p: Seq<char>) -> bool {
    exists|i: int| parent_segment_at(p, i)
}

/// Whether `path` stays below the directory it is relative to: it has no
/// `..` segment.
pub fn stays_below_root(path: &str) -> (r: bool)
    ensures
        r == !escapes_root(path@),
{
    let n = path.unicode_len();
    let mut i: usize = 0;
    while i < n && n - i >= 2
        invariant
            n == path@.len(),
            i <= n,
            forall|k: int| 0 <= k < i ==> !parent_segment_at(path@, k),
        decreases n - i,
    {
        let a = path.get_char(i);
        let b = path.get_char(i + 1);
        if a == '.' && b == '.' {
            let before = i == 0 || path.get_char(i - 1) == '/';
            let after = i + 2 == n || path.get_char(i + 2) == '/';
            if before && after {
                assert(parent_segment_at(path@, i as int));
                return false;
            }
        }
        i = i + 1;
    }
    assert forall|k: int| !parent_segment_at(path@, k) by {
        if 0 <= k && k + 2 <= path@.len() {
            assert(k < i);
        }
    }
    true
}

/// A control packet's view built from its parts.
pub open spec fn control_view(
    kind: ControlPacketType,
    job_id: Option<u32>,
    params: Map<Seq<char>, Seq<char>>,
) -> ControlView {
    ControlView { kind, job_id, params }
}

/// The reply that refuses a transfer.
pub open spec fn transfer_deny_view(reason: TransferDenyReason, transfer_id: Seq<char>) -> ControlView {
    control_view(
        ControlPacketType::TransferDeny,
        None,
        Map::empty().insert("reason"@, reason_name(reason)).insert("transfer_id"@, transfer_id),
    )
}

/// The reply that accepts a transfer as job `id`; a download also learns
/// the file's time.
pub open spec fn transfer_ack_view(id: u32, transfer_id: Seq<char>, modified_time: Option<u64>) -> ControlView {
    let base = Map::empty().insert("job_id"@, decimal(id as nat)).insert("transfer_id"@, transfer_id);
    control_view(
        ControlPacketType::TransferAck,
        None,
        match modified_time {
            Some(t) => base.insert("modified_time"@, decimal(t as nat)),
            None => base,
        },
    )
}

/// The position of the job with id `id`, if there is one.
pub open spec fn job_index(jobs: Seq<Job>, id: u32) -> Option<int> {
    if exists|i: int| 0 <= i < jobs.len() && jobs[i].id == id {
        Some(choose|i: int| 0 <= i < jobs.len() && jobs[i].id == id)
    } else {
        None
    }
}

proof fn lemma_job_index(jobs: Seq<Job>, id: u32, i: int)
    requires
        0 <= i < jobs.len(),
        jobs[i].id == id,
        forall|a: int, b: int| 0 <= a < b < jobs.len() ==> (#[trigger] jobs[a]).id != (#[trigger] jobs[b]).id,
    ensures
        job_index(jobs, id) == Some(i),
{
    let j = choose|j: int| 0 <= j < jobs.len() && jobs[j].id == id;
    if j < i {
        assert(jobs[j].id != jobs[i].id);
    } else if i < j {
        assert(jobs[i].id != jobs[j].id);
    }
}

/// The sync job that a packet's job id names.
pub open spec fn linked_sync_job(jobs: Seq<Job>, job_id: Option<u32>) -> Result<int, CommandError> {
    match job_id {
        None => Err(CommandError::UnknownJob),
        Some(id) => match job_index(jobs, id) {
            None => Err(CommandError::UnknownJob),
            Some(i) => if (jobs[i].job_type != JobType::Sync) {
                Err(CommandError::WrongJobType)
            } else {
                Ok(i)
            },
        },
    }
}

/// Relies on `uuid::Uuid::new_v4` and `Uuid::as_u128`: a random id for a
/// new connection.
#[verifier::external_body]
fn new_connection_id() -> (r: u128) {
    uuid::Uuid::new_v4().as_u128()
}

/// The state that the server keeps for one connection.
pub struct ConnectionData {
    pub uuid: u128,
    pub jobs: Vec<Job>,
    pub new_job_id: u32,
    pub last_index: StrMap<u64>,
}

impl ConnectionData {
    /// Jobs have parameters with distinct keys and ids no greater than the
    /// counter, so a new id is fresh.
    pub open spec fn wf(&self) -> bool {
        &&& self.last_index.wf()
        &&& forall|i: int|
            0 <= i < self.jobs@.len() ==> (#[trigger] self.jobs@[i]).params.wf() && 0 < self.jobs@[i].id
                <= self.new_job_id
        &&& forall|i: int, j: int|
            0 <= i < j < self.jobs@.len() ==> (#[trigger] self.jobs@[i]).id != (#[trigger] self.jobs@[j]).id
    }

    pub fn new(uuid: u128) -> (r: Self)
        ensures
            r.wf(),
            r.uuid == uuid,
            r.jobs@.len() == 0,
            r.new_job_id == 0,
            r.last_index.map() == Map::<Seq<char>, u64>::empty(),
    {
        ConnectionData { uuid, jobs: Vec::new(), new_job_id: 0, last_index: StrMap::new() }
    }

    /// The state of a new connection, under a fresh random id.
    pub fn open() -> (r: Self)
        ensures
            r.wf(),
            r.jobs@.len() == 0,
            r.new_job_id == 0,
            r.last_index.map() == Map::<Seq<char>, u64>::empty(),
    {
        ConnectionData::new(new_connection_id())
    }

    /// The next job id: the counter goes up by one first. `None` once every
    /// id has been used.
    pub fn new_job_id(&mut self) -> (r: Option<u32>)
        ensures
            final(self).jobs == old(self).jobs,
            final(self).uuid == old(self).uuid,
            final(self).last_index == old(self).last_index,
            old(self).wf() ==> final(self).wf(),
            old(self).new_job_id < u32::MAX ==> r == Some((old(self).new_job_id + 1) as u32)
                && final(self).new_job_id == old(self).new_job_id + 1,
            old(self).new_job_id == u32::MAX ==> r is None && final(self).new_job_id == u32::MAX,
    {
        if self.new_job_id == u32::MAX {
            return None;
        }
        self.new_job_id = self.new_job_id + 1;
        Some(self.new_job_id)
    }

    /// The position of the job with this id.
    pub fn get_job(&self, job_id: u32) -> (r: Option<usize>)
        requires
            self.wf(),
        ensures
            r matches Some(i) ==> job_index(self.jobs@, job_id) == Some(i as int),
            r is None ==> job_index(self.jobs@, job_id) is None,
            r matches Some(i) ==> i < self.jobs@.len() && self.jobs@[i as int].id == job_id,
            r is None ==> forall|i: int| 0 <= i < self.jobs@.len() ==> (#[trigger] self.jobs@[i]).id
                != job_id,
    {
        let mut i: usize = 0;
        while i < self.jobs.len()
            invariant
                self.wf(),
                0 <= i <= self.jobs@.len(),
                forall|k: int| 0 <= k < i ==> (#[trigger] self.jobs@[k]).id != job_id,
            decreases self.jobs@.len() - i,
        {
            if self.jobs[i].id == job_id {
                proof {
                    lemma_job_index(self.jobs@, job_id, i as int);
                }
                return Some(i);
            }
            i = i + 1;
        }
        None
    }

    pub fn add_job(&mut self, job: Job)
        ensures
            final(self).jobs@ == old(self).jobs@.push(job),
            final(self).uuid == old(self).uuid,
            final(self).new_job_id == old(self).new_job_id,
            final(self).last_index == old(self).last_index,
            old(self).wf() && job.params.wf() && job.id > 0 && job.id == old(self).new_job_id && (forall|i: int|
                0 <= i < old(self).jobs@.len() ==> (#[trigger] old(self).jobs@[i]).id < job.id) ==> final(self).wf(),
    {
        self.jobs.push(job);
    }

    /// The position of the first sync job.
    pub fn find_sync_job(&self) -> (r: Option<usize>)
        ensures
            r matches Some(i) ==> i < self.jobs@.len() && self.jobs@[i as int].job_type == JobType::Sync
                && forall|k: int| 0 <= k < i ==> (#[trigger] self.jobs@[k]).job_type != JobType::Sync,
            r is None ==> forall|i: int| 0 <= i < self.jobs@.len() ==> (#[trigger] self.jobs@[i]).job_type
                != JobType::Sync,
            r matches Some(i) ==> self.find_sync(self.jobs@) == Some(i as int),
            r is None ==> self.find_sync(self.jobs@) is None,
    {
        let mut i: usize = 0;
        while i < self.jobs.len()
            invariant
                0 <= i <= self.jobs@.len(),
                forall|k: int| 0 <= k < i ==> (#[trigger] self.jobs@[k]).job_type != JobType::Sync,
            decreases self.jobs@.len() - i,
        {
            if (self.jobs[i].job_type == JobType::Sync) {
                proof {
                    let jobs = self.jobs@;
                    let j = choose|j: int| 0 <= j < jobs.len() && jobs[j].job_type == JobType::Sync
                        && forall|k: int| 0 <= k < j ==> (#[trigger] jobs[k]).job_type != JobType::Sync;
                    assert(0 <= i < jobs.len() && jobs[i as int].job_type == JobType::Sync
                        && forall|k: int| 0 <= k < i ==> (#[trigger] jobs[k]).job_type != JobType::Sync);
                    if j < i {
                    } else if j > i {
                        assert(jobs[i as int].job_type == JobType::Sync);
                    }
                    assert(self.find_sync(jobs) == Some(i as int));
                }
                return Some(i);
            }
            i = i + 1;
        }
        None
    }
}

pub struct EchoRequestCommand {}

impl EchoRequestCommand {
    /// The answer to an echo request.
    pub fn execute(&self) -> (r: ControlPacket)
        ensures
            r.wf(),
            r.view() == control_view(ControlPacketType::EchoReply, None, Map::empty()),
    {
        ControlPacket::new(ControlPacketType::EchoReply, StrMap::new())
    }
}

pub struct TransferRequestCommand {}

impl TransferRequestCommand {
    /// Answers a transfer request. `file_exists` tells whether the requested
    /// file is under the serving root, `lock_exists` whether its in-progress
    /// file is, and `modified_time` is the file's time in whole seconds.
    /// A download of a missing file, or an upload onto a file that is being
    /// received, is refused; otherwise a pending transfer job is made.
    pub fn execute(
        &self,
        data: &mut ConnectionData,
        packet: &ControlPacket,
        file_exists: bool,
        lock_exists: bool,
        modified_time: u64,
    ) -> (r: Result<ControlPacket, CommandError>)
        requires
            old(data).wf(),
            packet.wf(),
        ensures
            final(data).wf(),
            final(data).uuid == old(data).uuid,
            final(data).last_index == old(data).last_index,
            ({
                let m = packet.params.map();
                let fp = param(m, "file_path"@);
                let dir = param(m, "direction"@);
                let tid = param(m, "transfer_id"@);
                if fp is None || dir is None || tid is None {
                    r == Err::<ControlPacket, CommandError>(CommandError::MissingParameter) && final(data).jobs
                        == old(data).jobs
                } else if dir != Some("toClient"@) && dir != Some("toServer"@) || escapes_root(fp->Some_0) {
                    r == Err::<ControlPacket, CommandError>(CommandError::BadParameter) && final(data).jobs
                        == old(data).jobs
                } else if dir == Some("toClient"@) && !file_exists {
                    r matches Ok(p) && p.wf() && p.view() == transfer_deny_view(
                        TransferDenyReason::FileNotFound,
                        tid->Some_0,
                    ) && final(data).jobs == old(data).jobs
                } else if dir == Some("toServer"@) && lock_exists {
                    r matches Ok(p) && p.wf() && p.view() == transfer_deny_view(
                        TransferDenyReason::FileWriteLock,
                        tid->Some_0,
                    ) && final(data).jobs == old(data).jobs
                } else if old(data).new_job_id == u32::MAX {
                    r == Err::<ControlPacket, CommandError>(CommandError::OutOfJobIds)
                } else {
                    let id = (old(data).new_job_id + 1) as u32;
                    &&& final(data).new_job_id == id
                    &&& final(data).jobs@.len() == old(data).jobs@.len() + 1
                    &&& final(data).jobs@.drop_last() == old(data).jobs@
                    &&& final(data).jobs@.last().id == id
                    &&& final(data).jobs@.last().job_type == JobType::Transfer
                    &&& final(data).jobs@.last().status == JobStatus::Pending
                    &&& final(data).jobs@.last().params.map() == m
                    &&& r matches Ok(p) && p.wf() && p.view() == transfer_ack_view(
                        id,
                        tid->Some_0,
                        if dir == Some("toClient"@) {
                            Some(modified_time)
                        } else {
                            None
                        },
                    )
                }
            }),
    {
        let fp = packet.params.get("file_path");
        let dir = packet.params.get("direction");
        let tid = packet.params.get("transfer_id");
        if fp.is_none() || dir.is_none() || tid.is_none() {
            return Err(CommandError::MissingParameter);
        }
        let fp = fp.unwrap().as_str();
        let dir = dir.unwrap().as_str();
        let tid = tid.unwrap();
        let to_client = text_eq(dir, "toClient");
        let to_server = text_eq(dir, "toServer");
        if !to_client && !to_server || !stays_below_root(fp) {
            return Err(CommandError::BadParameter);
        }
        if to_client && !file_exists {
            let mut params: StrMap<String> = StrMap::new();
            params.insert("reason".to_owned(), TransferDenyReason::FileNotFound.to_string());
            params.insert("transfer_id".to_owned(), tid.clone());
            return Ok(ControlPacket::new(ControlPacketType::TransferDeny, params));
        }
        if to_server && lock_exists {
            let mut params: StrMap<String> = StrMap::new();
            params.insert("reason".to_owned(), TransferDenyReason::FileWriteLock.to_string());
            params.insert("transfer_id".to_owned(), tid.clone());
            return Ok(ControlPacket::new(ControlPacketType::TransferDeny, params));
        }
        let id = match data.new_job_id() {
            Some(id) => id,
            None => {
                return Err(CommandError::OutOfJobIds);
            },
        };
        let job_params = copy_params(&packet.params);
        assert(job_params.map() == packet.params.map());
        data.add_job(Job { id, job_type: JobType::Transfer, status: JobStatus::Pending, params: job_params });
        let mut params: StrMap<String> = StrMap::new();
        params.insert("job_id".to_owned(), decimal_text(id as u64));
        params.insert("transfer_id".to_owned(), tid.clone());
        if to_client {
            params.insert("modified_time".to_owned(), decimal_text(modified_time));
        }
        let reply = ControlPacket::new(ControlPacketType::TransferAck, params);
        assert(data.jobs@.drop_last() =~= old(data).jobs@);
        Ok(reply)
    }
}

pub struct SyncRequestCommand {}

impl SyncRequestCommand {
    /// Answers a sync request; `dir_exists` tells whether the requested
    /// directory is under the serving root. On success a pending sync job is
    /// made, acknowledged, and the client is asked for its index.
    pub fn execute(&self, data: &mut ConnectionData, packet: &ControlPacket, dir_exists: bool) -> (r: Result<
        Vec<ControlPacket>,
        CommandError,
    >)
        requires
            old(data).wf(),
            packet.wf(),
        ensures
            final(data).wf(),
            final(data).uuid == old(data).uuid,
            final(data).last_index == old(data).last_index,
            ({
                let m = packet.params.map();
                if param(m, "path"@) is None {
                    r == Err::<Vec<ControlPacket>, CommandError>(CommandError::MissingParameter)
                        && final(data).jobs == old(data).jobs
                } else if escapes_root(param(m, "path"@)->Some_0) {
                    r == Err::<Vec<ControlPacket>, CommandError>(CommandError::BadParameter)
                        && final(data).jobs == old(data).jobs
                } else if !dir_exists {
                    r matches Ok(ps) && ps@.len() == 1 && ps@[0].wf() && ps@[0].view() == control_view(
                        ControlPacketType::SyncDeny,
                        None,
                        Map::empty().insert("reason"@, reason_name(TransferDenyReason::FileNotFound)),
                    ) && final(data).jobs == old(data).jobs
                } else if old(data).new_job_id == u32::MAX {
                    r == Err::<Vec<ControlPacket>, CommandError>(CommandError::OutOfJobIds)
                } else {
                    let id = (old(data).new_job_id + 1) as u32;
                    &&& final(data).new_job_id == id
                    &&& final(data).jobs@.len() == old(data).jobs@.len() + 1
                    &&& final(data).jobs@.drop_last() == old(data).jobs@
                    &&& final(data).jobs@.last().id == id
                    &&& final(data).jobs@.last().job_type == JobType::Sync
                    &&& final(data).jobs@.last().status == JobStatus::Pending
                    &&& final(data).jobs@.last().params.map() == m
                    &&& r matches Ok(ps) && ps@.len() == 2 && ps@[0].wf() && ps@[1].wf()
                        && ps@[0].view() == control_view(
                        ControlPacketType::SyncAck,
                        None,
                        Map::empty().insert("job_id"@, decimal(id as nat)),
                    ) && ps@[1].view() == control_view(ControlPacketType::SyncIndexRequest, Some(id), Map::empty())
                }
            }),
    {
        let path = match packet.params.get("path") {
            Some(p) => p,
            None => {
                return Err(CommandError::MissingParameter);
            },
        };
        if !stays_below_root(path.as_str()) {
            return Err(CommandError::BadParameter);
        }
        if !dir_exists {
            let mut params: StrMap<String> = StrMap::new();
            params.insert("reason".to_owned(), TransferDenyReason::FileNotFound.to_string());
            let mut out: Vec<ControlPacket> = Vec::new();
            out.push(ControlPacket::new(ControlPacketType::SyncDeny, params));
            return Ok(out);
        }
        let id = match data.new_job_id() {
            Some(id) => id,
            None => {
                return Err(CommandError::OutOfJobIds);
            },
        };
        let job_params = copy_params(&packet.params);
        data.add_job(Job { id, job_type: JobType::Sync, status: JobStatus::Pending, params: job_params });
        assert(data.jobs@.drop_last() =~= old(data).jobs@);
        let mut params: StrMap<String> = StrMap::new();
        params.insert("job_id".to_owned(), decimal_text(id as u64));
        let mut out: Vec<ControlPacket> = Vec::new();
        out.push(ControlPacket::new(ControlPacketType::SyncAck, params));
        let mut request = ControlPacket::new(ControlPacketType::SyncIndexRequest, StrMap::new());
        request.job_id = Some(id);
        out.push(request);
        Ok(out)
    }
}

/// The plan without the server's own deletions.
pub open spec fn client_part(full: Map<Seq<char>, Action>) -> Map<Seq<char>, Action> {
    Map::new(|p: Seq<char>| full.contains_key(p) && full[p] != Action::SelfDelete, |p: Seq<char>| full[p])
}

/// The paths that the server is to delete itself.
pub open spec fn self_deleted(full: Map<Seq<char>, Action>, p: Seq<char>) -> bool {
    full.contains_key(p) && full[p] == Action::SelfDelete
}

/// What a client index brings about: the files the server deletes itself,
/// each with the time it recorded, and the update for the client.
pub struct SyncOutcome {
    pub self_deletes: StrMap<u64>,
    pub reply: ControlPacket,
}

/// The server's own deletions of a plan, stamped with `now`.
pub open spec fn self_deletes(full: Map<Seq<char>, Action>, now: u64) -> Map<Seq<char>, u64> {
    Map::new(|p: Seq<char>| self_deleted(full, p), |p: Seq<char>| now)
}

/// Splits the server's own deletions, stamped with `now`, off a plan.
pub fn split_self_deletes(full: &StrMap<Action>, now: u64) -> (r: (StrMap<u64>, StrMap<Action>))
    requires
        full.wf(),
    ensures
        r.0.wf(),
        r.0.map() == self_deletes(full.map(), now),
        r.1.wf(),
        r.1.map() == client_part(full.map()),
{
    let mut gone: StrMap<u64> = StrMap::new();
    let mut rest: StrMap<Action> = StrMap::new();
    let mut i: usize = 0;
    while i < full.entries.len()
        invariant
            full.wf(),
            rest.wf(),
            gone.wf(),
            0 <= i <= full.entries@.len(),
            rest.map() == client_part(crate::strmap::pairs_to_map(full.pairs().subrange(0, i as int))),
            gone.map() == self_deletes(crate::strmap::pairs_to_map(full.pairs().subrange(0, i as int)), now),
        decreases full.entries@.len() - i,
    {
        let ghost pre = full.pairs().subrange(0, i as int);
        let ghost e = full.pairs()[i as int];
        assert(full.pairs().subrange(0, i + 1) =~= pre.push(e));
        proof {
            crate::strmap::lemma_pairs_to_map_push(pre, e.0, e.1);
        }
        let ghost seen2 = crate::strmap::pairs_to_map(full.pairs().subrange(0, i + 1));
        proof {
            crate::strmap::lemma_pairs_to_map_dom(pre, e.0);
            if crate::strmap::pairs_to_map(pre).contains_key(e.0) {
                let j = choose|j: int| 0 <= j < pre.len() && pre[j].0 == e.0;
                assert(full.pairs()[j].0 == full.pairs()[i as int].0);
            }
        }
        if full.entries[i].1 == Action::SelfDelete {
            gone.insert(full.entries[i].0.clone(), now);
        } else {
            rest.insert(full.entries[i].0.clone(), full.entries[i].1);
        }
        i = i + 1;
        assert(rest.map() =~= client_part(seen2));
        assert(gone.map() =~= self_deletes(seen2, now));
    }
    assert(full.pairs().subrange(0, i as int) =~= full.pairs());
    (gone, rest)
}

pub struct SyncIndexUpdateCommand {
    pub source_of_truth: SourceOfTruth,
}

impl ConnectionData {
    /// The sync job that a packet's job id names.
    pub fn get_linked_sync_job(&self, job_id: Option<u32>) -> (r: Result<usize, CommandError>)
        requires
            self.wf(),
        ensures
            match (r, linked_sync_job(self.jobs@, job_id)) {
                (Ok(i), Ok(j)) => i as int == j,
                (Err(e), Err(e2)) => e == e2,
                _ => false,
            },
    {
        let id = match job_id {
            Some(id) => id,
            None => {
                return Err(CommandError::UnknownJob);
            },
        };
        let i = match self.get_job(id) {
            Some(i) => i,
            None => {
                return Err(CommandError::UnknownJob);
            },
        };
        if (self.jobs[i].job_type != JobType::Sync) {
            return Err(CommandError::WrongJobType);
        }
        Ok(i)
    }
}

impl SyncIndexUpdateCommand {
    /// Reconciles the index that the client sent with `server_index`, just
    /// built, and the server's deletions. The server's own deletions are
    /// taken out of the plan and recorded at time `now`; the client's index
    /// is kept as the connection's last index; the rest of the plan is the
    /// update for the client.
    #[verifier::rlimit(40)]
    pub fn execute(
        &self,
        data: &mut ConnectionData,
        packet: &ControlPacket,
        server_index: &StrMap<u64>,
        server_deleted: &mut StrMap<u64>,
        now: u64,
    ) -> (r: Result<SyncOutcome, CommandError>)
        requires
            old(data).wf(),
            packet.wf(),
            server_index.wf(),
            old(server_deleted).wf(),
        ensures
            final(data).wf(),
            final(server_deleted).wf(),
            final(data).uuid == old(data).uuid,
            final(data).jobs == old(data).jobs,
            final(data).new_job_id == old(data).new_job_id,
            match linked_sync_job(old(data).jobs@, packet.job_id) {
                Err(e) => r == Err::<SyncOutcome, CommandError>(e) && *final(server_deleted) == *old(
                    server_deleted,
                ) && final(data).last_index == old(data).last_index,
                Ok(i) => if !all_decimal(packet.params.map()) {
                    r == Err::<SyncOutcome, CommandError>(CommandError::BadParameter)
                        && *final(server_deleted) == *old(server_deleted) && final(data).last_index
                        == old(data).last_index
                } else {
                    let c = params_index(packet.params.map());
                    let full = plan(c, server_index.map(), self.source_of_truth, old(server_deleted).map());
                    &&& final(data).last_index.map() == c
                    &&& final(server_deleted).map() == old(server_deleted).map().union_prefer_right(
                        self_deletes(full, now),
                    )
                    &&& r matches Ok(out) && out.self_deletes.wf() && out.self_deletes.map()
                        == self_deletes(full, now) && out.reply.wf() && out.reply.view() == control_view(
                        ControlPacketType::SyncUpdate,
                        Some(old(data).jobs@[i].id),
                        plan_params(client_part(full)),
                    )
                },
            },
    {
        let i = match data.get_linked_sync_job(packet.job_id) {
            Ok(i) => i,
            Err(e) => {
                return Err(e);
            },
        };
        let client = match params_to_index(&packet.params) {
            Some(c) => c,
            None => {
                return Err(CommandError::BadParameter);
            },
        };
        let comparer = IndexComparer::new(
            copy_index(&client),
            copy_index(server_index),
            self.source_of_truth,
            copy_index(server_deleted),
        );
        let full = comparer.compare();
        let (gone, rest) = split_self_deletes(&full, now);
        merge_index(server_deleted, &gone);
        let job_id = data.jobs[i].id;
        data.last_index = client;
        let mut reply = ControlPacket::new(ControlPacketType::SyncUpdate, plan_to_params(&rest));
        reply.job_id = Some(job_id);
        Ok(SyncOutcome { self_deletes: gone, reply })
    }
}

pub struct SyncIndexResponseCommand {}

impl SyncIndexResponseCommand {
    /// The answer to the index that the client sends when a session starts:
    /// the same reconciliation, with the server as the side of truth.
    pub fn execute(
        &self,
        data: &mut ConnectionData,
        packet: &ControlPacket,
        server_index: &StrMap<u64>,
        server_deleted: &mut StrMap<u64>,
        now: u64,
    ) -> (r: Result<SyncOutcome, CommandError>)
        requires
            old(data).wf(),
            packet.wf(),
            server_index.wf(),
            old(server_deleted).wf(),
        ensures
            final(data).wf(),
            final(server_deleted).wf(),
            final(data).uuid == old(data).uuid,
            final(data).jobs == old(data).jobs,
            final(data).new_job_id == old(data).new_job_id,
            match linked_sync_job(old(data).jobs@, packet.job_id) {
                Err(e) => r == Err::<SyncOutcome, CommandError>(e) && *final(server_deleted) == *old(
                    server_deleted,
                ) && final(data).last_index == old(data).last_index,
                Ok(i) => if !all_decimal(packet.params.map()) {
                    r == Err::<SyncOutcome, CommandError>(CommandError::BadParameter)
                        && *final(server_deleted) == *old(server_deleted) && final(data).last_index
                        == old(data).last_index
                } else {
                    let c = params_index(packet.params.map());
                    let full = plan(c, server_index.map(), SourceOfTruth::Server, old(server_deleted).map());
                    &&& final(data).last_index.map() == c
                    &&& final(server_deleted).map() == old(server_deleted).map().union_prefer_right(
                        self_deletes(full, now),
                    )
                    &&& r matches Ok(out) && out.self_deletes.wf() && out.self_deletes.map()
                        == self_deletes(full, now) && out.reply.wf() && out.reply.view() == control_view(
                        ControlPacketType::SyncUpdate,
                        Some(old(data).jobs@[i].id),
                        plan_params(client_part(full)),
                    )
                },
            },
    {
        let command = SyncIndexUpdateCommand { source_of_truth: SourceOfTruth::Server };
        command.execute(data, packet, server_index, server_deleted, now)
    }
}

impl ConnectionData {
    /// Sets the status of job `i`, leaving everything else as it was.
    pub fn set_status(&mut self, i: usize, status: JobStatus)
        requires
            i < old(self).jobs@.len(),
        ensures
            final(self).jobs@.len() == old(self).jobs@.len(),
            final(self).jobs@[i as int].status == status,
            final(self).jobs@[i as int].id == old(self).jobs@[i as int].id,
            final(self).jobs@[i as int].job_type == old(self).jobs@[i as int].job_type,
            final(self).jobs@[i as int].params == old(self).jobs@[i as int].params,
            forall|k: int| 0 <= k < old(self).jobs@.len() && k != i ==> final(self).jobs@[k] == old(self).jobs@[k],
            final(self).uuid == old(self).uuid,
            final(self).new_job_id == old(self).new_job_id,
            final(self).last_index == old(self).last_index,
            old(self).wf() ==> final(self).wf(),
    {
        self.jobs[i].status = status;
    }
}

/// The transfer job that a `job_id` parameter names, still pending.
pub open spec fn linked_pending_transfer(jobs: Seq<Job>, m: Map<Seq<char>, Seq<char>>) -> Result<int, CommandError> {
    match param(m, "job_id"@) {
        None => Err(CommandError::MissingParameter),
        Some(t) => match decimal_value(t) {
            None => Err(CommandError::BadParameter),
            Some(n) => if n > u32::MAX {
                Err(CommandError::BadParameter)
            } else {
                match job_index(jobs, n as u32) {
                    None => Err(CommandError::UnknownJob),
                    Some(i) => if (jobs[i].job_type != JobType::Transfer) {
                        Err(CommandError::WrongJobType)
                    } else if (jobs[i].status != JobStatus::Pending) {
                        Err(CommandError::WrongJobState)
                    } else if (param(jobs[i].params.map(), "file_path"@) is None) {
                        Err(CommandError::MissingParameter)
                    } else {
                        Ok(i)
                    }
                }
            }
        },
    }
}

pub struct TransferStartCommand {}

impl TransferStartCommand {
    /// Starts sending the file of the pending download that the packet's
    /// `job_id` names: the job turns running, and its id and file path are
    /// returned for the sender.
    pub fn execute(&self, data: &mut ConnectionData, packet: &ControlPacket) -> (r: Result<(u32, String), CommandError>)
        requires
            old(data).wf(),
            packet.wf(),
        ensures
            final(data).wf(),
            final(data).uuid == old(data).uuid,
            final(data).new_job_id == old(data).new_job_id,
            final(data).last_index == old(data).last_index,
            match linked_pending_transfer(old(data).jobs@, packet.params.map()) {
                Err(e) => r == Err::<(u32, String), CommandError>(e) && final(data).jobs == old(data).jobs,
                Ok(i) => r matches Ok((id, path)) && id == old(data).jobs@[i].id
                    && path@ == old(data).jobs@[i].params.map()["file_path"@]
                    && final(data).jobs@.len() == old(data).jobs@.len()
                    && final(data).jobs@[i].status == JobStatus::Running
                    && forall|k: int| 0 <= k < old(data).jobs@.len() && k != i ==> final(data).jobs@[k] == old(data).jobs@[k],
            },
    {
        let text = match packet.params.get("job_id") {
            Some(t) => t,
            None => {
                return Err(CommandError::MissingParameter);
            },
        };
        let n = match parse_decimal(text.as_str()) {
            Some(n) => n,
            None => {
                return Err(CommandError::BadParameter);
            },
        };
        if n > u32::MAX as u64 {
            return Err(CommandError::BadParameter);
        }
        let i = match data.get_job(n as u32) {
            Some(i) => i,
            None => {
                return Err(CommandError::UnknownJob);
            },
        };
        if (data.jobs[i].job_type != JobType::Transfer) {
            return Err(CommandError::WrongJobType);
        }
        if (data.jobs[i].status != JobStatus::Pending) {
            return Err(CommandError::WrongJobState);
        }
        let path = match data.jobs[i].params.get("file_path") {
            Some(p) => p.clone(),
            None => {
                return Err(CommandError::MissingParameter);
            },
        };
        let id = data.jobs[i].id;
        data.set_status(i, JobStatus::Running);
        Ok((id, path))
    }

    /// Whether the sender looks for a cancellation after this packet: every
    /// fifth one.
    pub fn cancel_check_due(packet_number: u32) -> (r: bool)
        ensures
            r == (packet_number % 5 == 0),
    {
        packet_number % 5 == 0
    }

    /// Ends the sending of job `i`: a canceled job is announced to the
    /// peer, any other is finished.
    pub fn finish(data: &mut ConnectionData, i: usize) -> (r: Option<ControlPacket>)
        requires
            old(data).wf(),
            i < old(data).jobs@.len(),
        ensures
            final(data).wf(),
            old(data).jobs@[i as int].status == JobStatus::Canceled ==> final(data).jobs == old(data).jobs
                && (r matches Some(p) && p.wf() && p.view() == control_view(
                ControlPacketType::TransferCancel,
                None,
                Map::empty().insert("job_id"@, decimal(old(data).jobs@[i as int].id as nat)),
            )),
            old(data).jobs@[i as int].status != JobStatus::Canceled ==> r is None
                && final(data).jobs@[i as int].status == JobStatus::Finished
                && final(data).jobs@.len() == old(data).jobs@.len()
                && forall|k: int| 0 <= k < old(data).jobs@.len() && k != i ==> final(data).jobs@[k] == old(data).jobs@[k],
    {
        if (data.jobs[i].status == JobStatus::Canceled) {
            let mut params: StrMap<String> = StrMap::new();
            params.insert("job_id".to_owned(), decimal_text(data.jobs[i].id as u64));
            Some(ControlPacket::new(ControlPacketType::TransferCancel, params))
        } else {
            data.set_status(i, JobStatus::Finished);
            None
        }
    }
}

/// What to do with the bytes of a data packet for an upload.
#[derive(Clone, Copy, Debug, PartialEq, Eq, Structural)]
pub enum DataAction {
    /// Append the payload to the in-progress file.
    Append,
    /// The upload is complete: rename the in-progress file to its final
    /// name and give it this modification time.
    Finish(u64),
}

/// The file work for one data packet: whether to create the in-progress
/// file first, what to do with the payload, and the file's path.
pub struct DataStep {
    pub create: bool,
    pub action: DataAction,
    pub file_path: String,
}

/// How an upload job moves on a data packet.
pub open spec fn data_step(jobs: Seq<Job>, job_id: u32, has_data: bool) -> Result<(bool, DataAction), CommandError> {
    match job_index(jobs, job_id) {
        None => Err(CommandError::UnknownJob),
        Some(i) => {
            let job = jobs[i];
            let m = job.params.map();
            if (job.job_type != JobType::Transfer) {
                Err(CommandError::WrongJobType)
            } else if (job.status != JobStatus::Pending && job.status != JobStatus::Running) {
                Err(CommandError::WrongJobState)
            } else if (param(m, "file_path"@) is None) {
                Err(CommandError::MissingParameter)
            } else if has_data {
                Ok((job.status == JobStatus::Pending, DataAction::Append))
            } else {
                match param(m, "modified_time"@) {
                    None => Err(CommandError::MissingParameter),
                    Some(t) => match decimal_value(t) {
                        None => Err(CommandError::BadParameter),
                        Some(n) => Ok((job.status == JobStatus::Pending, DataAction::Finish(n))),
                    },
                }
            }
        },
    }
}

/// The handler that a control packet goes to on the server.
#[derive(Clone, Copy, Debug, PartialEq, Eq, Structural)]
pub enum ServerCommand {
    Echo,
    TransferRequest,
    TransferStart,
    SyncRequest,
    /// A client index: the first of a session with the server as the side
    /// of truth, a later one with the client.
    SyncIndex(SourceOfTruth),
}

pub struct PacketHandler {}

impl PacketHandler {
    /// The handler for a control packet; any kind that a client does not
    /// send to a server ends the connection.
    pub fn handle_control_packet(&self, packet: &ControlPacket) -> (r: Result<ServerCommand, CommandError>)
        ensures
            r == (match packet.control_packet_type {
                ControlPacketType::EchoRequest => Ok(ServerCommand::Echo),
                ControlPacketType::TransferRequest => Ok(ServerCommand::TransferRequest),
                ControlPacketType::TransferStart => Ok(ServerCommand::TransferStart),
                ControlPacketType::SyncRequest => Ok(ServerCommand::SyncRequest),
                ControlPacketType::SyncIndexResponse => Ok(ServerCommand::SyncIndex(SourceOfTruth::Server)),
                ControlPacketType::SyncIndexUpdate => Ok(ServerCommand::SyncIndex(SourceOfTruth::Client)),
                _ => Err::<ServerCommand, CommandError>(CommandError::UnexpectedPacket),
            }),
    {
        match packet.control_packet_type {
            ControlPacketType::EchoRequest => Ok(ServerCommand::Echo),
            ControlPacketType::TransferRequest => Ok(ServerCommand::TransferRequest),
            ControlPacketType::TransferStart => Ok(ServerCommand::TransferStart),
            ControlPacketType::SyncRequest => Ok(ServerCommand::SyncRequest),
            ControlPacketType::SyncIndexResponse => Ok(ServerCommand::SyncIndex(SourceOfTruth::Server)),
            ControlPacketType::SyncIndexUpdate => Ok(ServerCommand::SyncIndex(SourceOfTruth::Client)),
            _ => Err(CommandError::UnexpectedPacket),
        }
    }

    /// Moves the upload that a data packet belongs to: a pending job starts
    /// running (its in-progress file is created), a payload is appended, and
    /// the empty packet that ends the stream finishes the job.
    pub fn handle_data_packet(&self, data: &mut ConnectionData, packet: &DataPacket) -> (r: Result<DataStep, CommandError>)
        requires
            old(data).wf(),
            packet.wf(),
        ensures
            final(data).wf(),
            final(data).uuid == old(data).uuid,
            final(data).new_job_id == old(data).new_job_id,
            final(data).last_index == old(data).last_index,
            match data_step(old(data).jobs@, packet.job_id, packet.has_data) {
                Err(e) => r == Err::<DataStep, CommandError>(e) && final(data).jobs == old(data).jobs,
                Ok((create, action)) => {
                    let i = job_index(old(data).jobs@, packet.job_id)->Some_0;
                    &&& r matches Ok(step) && step.create == create && step.action == action
                        && step.file_path@ == old(data).jobs@[i].params.map()["file_path"@]
                    &&& final(data).jobs@.len() == old(data).jobs@.len()
                    &&& final(data).jobs@[i].status == (match action {
                        DataAction::Append => JobStatus::Running,
                        DataAction::Finish(_) => JobStatus::Finished,
                    })
                    &&& forall|k: int| 0 <= k < old(data).jobs@.len() && k != i ==> final(data).jobs@[k] == old(data).jobs@[k]
                },
            },
    {
        let i = match data.get_job(packet.job_id) {
            Some(i) => i,
            None => {
                return Err(CommandError::UnknownJob);
            },
        };
        if (data.jobs[i].job_type != JobType::Transfer) {
            return Err(CommandError::WrongJobType);
        }
        let status = data.jobs[i].status;
        if (status != JobStatus::Pending && status != JobStatus::Running) {
            return Err(CommandError::WrongJobState);
        }
        let file_path = match data.jobs[i].params.get("file_path") {
            Some(p) => p.clone(),
            None => {
                return Err(CommandError::MissingParameter);
            },
        };
        let create = status == JobStatus::Pending;
        if packet.has_data {
            data.set_status(i, JobStatus::Running);
            return Ok(DataStep { create, action: DataAction::Append, file_path });
        }
        let t = match data.jobs[i].params.get("modified_time") {
            Some(t) => t,
            None => {
                return Err(CommandError::MissingParameter);
            },
        };
        let n = match parse_decimal(t.as_str()) {
            Some(n) => n,
            None => {
                return Err(CommandError::BadParameter);
            },
        };
        data.set_status(i, JobStatus::Finished);
        Ok(DataStep { create, action: DataAction::Finish(n), file_path })
    }
}

#[derive(Clone, Copy, Debug, PartialEq, Eq, Structural)]
pub enum ConnectionUpdateType {
    ServerIndexUpdated,
}

/// A notice on the broadcast bus: the connection `connection_uuid` changed
/// the server's files; `data` is the index it last received from its client.
pub struct ConnectionUpdate {
    pub update_type: ConnectionUpdateType,
    pub connection_uuid: u128,
    pub data: StrMap<u64>,
}

impl ConnectionUpdate {
    pub fn new(connection_uuid: u128, data: StrMap<u64>) -> (r: Self)
        ensures
            r.update_type == ConnectionUpdateType::ServerIndexUpdated,
            r.connection_uuid == connection_uuid,
            r.data == data,
    {
        ConnectionUpdate { update_type: ConnectionUpdateType::ServerIndexUpdated, connection_uuid, data }
    }
}

impl ConnectionData {
    /// What this connection sends its client on a broadcast notice: nothing
    /// for its own notices or without a sync job; otherwise an update with
    /// the plan, with the server as the side of truth, from its client's last
    /// index to the published one.
    pub fn handle_connection_update(&self, update: &ConnectionUpdate) -> (r: Option<ControlPacket>)
        requires
            self.wf(),
            update.data.wf(),
        ensures
            update.connection_uuid == self.uuid ==> r is None,
            update.connection_uuid != self.uuid ==> match self.find_sync(self.jobs@) {
                None => r is None,
                Some(i) => r matches Some(p) && p.wf() && p.view() == control_view(
                    ControlPacketType::SyncUpdate,
                    Some(self.jobs@[i].id),
                    plan_params(plan(self.last_index.map(), update.data.map(), SourceOfTruth::Server, Map::empty())),
                ),
            },
    {
        if update.connection_uuid == self.uuid {
            return None;
        }
        let i = match self.find_sync_job() {
            Some(i) => i,
            None => {
                return None;
            },
        };
        let comparer = IndexComparer::new(
            copy_index(&self.last_index),
            copy_index(&update.data),
            SourceOfTruth::Server,
            StrMap::new(),
        );
        let diff = comparer.compare();
        let mut reply = ControlPacket::new(ControlPacketType::SyncUpdate, plan_to_params(&diff));
        reply.job_id = Some(self.jobs[i].id);
        Some(reply)
    }

    /// The position of the first sync job.
    pub open spec fn find_sync(&self, jobs: Seq<Job>) -> Option<int> {
        if (exists|i: int| 0 <= i < jobs.len() && jobs[i].job_type == JobType::Sync) {
            Some(choose|i: int| 0 <= i < jobs.len() && jobs[i].job_type == JobType::Sync
                && forall|k: int| 0 <= k < i ==> (#[trigger] jobs[k]).job_type != JobType::Sync)
        } else {
            None
        }
    }
}

} // verus!
