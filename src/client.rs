//! The client's side of a sync session as a state machine: the transfers it
//! asked for, the checklist of the update in progress, and what to do on
//! each packet from the server.
use vstd::prelude::*;
use crate::conversions::{index_params, index_to_params};
use crate::index_comparer::Action;
use crate::packets::{ControlPacket, ControlPacketType, ControlView, DataPacket};
use crate::server::{control_view, param, DataAction};
use crate::strmap::{StrMap, pairs_to_map, text_eq};
use crate::wire::{decimal, decimal_text, decimal_value, parse_decimal};

verus! {

#[derive(Clone, Copy, Debug, PartialEq, Eq, Structural)]
pub enum TransferDirection {
    ToServer,
    ToClient,
}

/// `Requested`, then `Accepted` or `Denied`; an accepted download is
/// `InProgress` from its first data packet and `Completed` at the end.
#[derive(Clone, Copy, Debug, PartialEq, Eq, Structural)]
pub enum TransferStatus {
    Requested,
    Accepted,
    Denied,
    InProgress,
    Completed,
}

/// A transfer that the client asked for; `job_id` is the server's, known
/// from the acknowledgement on.
pub struct Transfer {
    pub direction: TransferDirection,
    pub status: TransferStatus,
    pub file_path: String,
    pub original_modified_time: u64,
    pub id: u32,
    pub job_id: u32,
}

impl Transfer {
    pub fn new(direction: TransferDirection, id: u32, file_path: String) -> (r: Transfer)
        ensures
            r.direction == direction,
            r.status == TransferStatus::Requested,
            r.file_path == file_path,
            r.original_modified_time == 0,
            r.id == id,
            r.job_id == 0,
    {
        Transfer {
            direction,
            status: TransferStatus::Requested,
            file_path,
            original_modified_time: 0,
            id,
            job_id: 0,
        }
    }
}

/// The action that a name on the wire stands for.
pub open spec fn action_of_name(name: Seq<char>) -> Option<Action> {
    if name == "GET"@ {
        Some(Action::Get)
    } else if name == "PUT"@ {
        Some(Action::Put)
    } else if name == "DELETE"@ {
        Some(Action::Delete)
    } else if name == "SELF_DELETE"@ {
        Some(Action::SelfDelete)
    } else {
        None
    }
}

/// The action that `name` stands for.
pub fn parse_action(name: &str) -> (r: Option<Action>)
    ensures
        r == action_of_name(name@),
{
    if text_eq(name, "GET") {
        Some(Action::Get)
    } else if text_eq(name, "PUT") {
        Some(Action::Put)
    } else if text_eq(name, "DELETE") {
        Some(Action::Delete)
    } else if text_eq(name, "SELF_DELETE") {
        Some(Action::SelfDelete)
    } else {
        None
    }
}

/// The work that an update asks of the client, entry by entry: `Get`
/// fetches the server's copy, `Put` uploads the client's, `Delete` removes
/// it. Any other value is ignored.
pub open spec fn update_steps(ps: Seq<(Seq<char>, Seq<char>)>) -> Seq<(Seq<char>, Action)>
    decreases ps.len(),
{
    if ps.len() == 0 {
        Seq::empty()
    } else {
        let rest = update_steps(ps.drop_last());
        match action_of_name(ps.last().1) {
            Some(a) => if a != Action::SelfDelete {
                rest.push((ps.last().0, a))
            } else {
                rest
            },
            None => rest,
        }
    }
}

/// The position of the first transfer with id `id`.
pub open spec fn first_transfer(ts: Seq<Transfer>, id: u32) -> Option<int> {
    if exists|i: int| 0 <= i < ts.len() && ts[i].id == id {
        Some(choose|i: int| 0 <= i < ts.len() && ts[i].id == id && forall|k: int| 0 <= k < i ==> (#[trigger] ts[k]).id != id)
    } else {
        None
    }
}

/// The position of the first transfer that the server knows as `job_id`.
pub open spec fn first_transfer_of_job(ts: Seq<Transfer>, job_id: u32) -> Option<int> {
    if exists|i: int| 0 <= i < ts.len() && ts[i].job_id == job_id {
        Some(choose|i: int| 0 <= i < ts.len() && ts[i].job_id == job_id && forall|k: int| 0 <= k < i ==> (#[trigger] ts[k]).job_id != job_id)
    } else {
        None
    }
}

pub struct SyncManager {
    pub path: String,
    pub target: String,
    pub job_id: Option<u32>,
    pub polling_ready: bool,
    pub transfers: Vec<Transfer>,
    pub next_transfer_id: u32,
    pub is_syncing: bool,
    pub current_sync_update_checklist: StrMap<bool>,
}

/// Two states differ at most in transfer `i`.
pub open spec fn only_transfer_changed(a: SyncManager, b: SyncManager, i: int) -> bool {
    &&& b.transfers@.len() == a.transfers@.len()
    &&& forall|k: int| 0 <= k < a.transfers@.len() && k != i ==> b.transfers@[k] == a.transfers@[k]
    &&& b.transfers@[i].id == a.transfers@[i].id
    &&& b.transfers@[i].direction == a.transfers@[i].direction
    &&& b.transfers@[i].file_path == a.transfers@[i].file_path
    &&& b.job_id == a.job_id
    &&& b.is_syncing == a.is_syncing
    &&& b.current_sync_update_checklist == a.current_sync_update_checklist
    &&& b.next_transfer_id == a.next_transfer_id
}

/// The request for a transfer of `path`.
pub open spec fn transfer_request_view(path: Seq<char>, id: u32, direction: TransferDirection, modified_time: u64) -> ControlView {
    let base = Map::empty().insert("file_path"@, path).insert("transfer_id"@, decimal(id as nat));
    control_view(
        ControlPacketType::TransferRequest,
        None,
        match direction {
            TransferDirection::ToClient => base.insert("direction"@, "toClient"@),
            TransferDirection::ToServer => base.insert("direction"@, "toServer"@).insert(
                "modified_time"@,
                decimal(modified_time as nat),
            ),
        },
    )
}

impl SyncManager {
    pub open spec fn wf(&self) -> bool {
        self.current_sync_update_checklist.wf()
    }

    pub fn new(path: String, target: String) -> (r: SyncManager)
        ensures
            r.wf(),
            r.path == path,
            r.target == target,
            r.job_id is None,
            r.transfers@.len() == 0,
            r.next_transfer_id == 0,
            !r.is_syncing,
            r.current_sync_update_checklist.map() == Map::<Seq<char>, bool>::empty(),
    {
        SyncManager {
            path,
            target,
            job_id: None,
            polling_ready: false,
            transfers: Vec::new(),
            next_transfer_id: 0,
            is_syncing: false,
            current_sync_update_checklist: StrMap::new(),
        }
    }

    /// A checklist with every path of the update not yet done; a non-empty
    /// one marks a sync in progress.
    pub fn create_sync_update_checklist(&mut self, sync_update: &StrMap<String>)
        requires
            sync_update.wf(),
        ensures
            final(self).wf(),
            final(self).current_sync_update_checklist.map() == Map::new(
                |k: Seq<char>| sync_update.map().contains_key(k),
                |k: Seq<char>| false,
            ),
            final(self).is_syncing == (old(self).is_syncing || sync_update.map().dom().len() > 0),
            final(self).transfers == old(self).transfers,
            final(self).job_id == old(self).job_id,
            final(self).next_transfer_id == old(self).next_transfer_id,
            final(self).target == old(self).target,
    {
        let mut list: StrMap<bool> = StrMap::new();
        let mut i: usize = 0;
        while i < sync_update.entries.len()
            invariant
                sync_update.wf(),
                list.wf(),
                0 <= i <= sync_update.entries@.len(),
                list.map() == Map::new(
                    |k: Seq<char>| pairs_to_map(sync_update.pairs().subrange(0, i as int)).contains_key(k),
                    |k: Seq<char>| false,
                ),
            decreases sync_update.entries@.len() - i,
        {
            let ghost pre = sync_update.pairs().subrange(0, i as int);
            let ghost e = sync_update.pairs()[i as int];
            assert(sync_update.pairs().subrange(0, i + 1) =~= pre.push(e));
            proof {
                crate::strmap::lemma_pairs_to_map_push(pre, e.0, e.1);
            }
            list.insert(sync_update.entries[i].0.clone(), false);
            i = i + 1;
            assert(list.map() =~= Map::new(
                |k: Seq<char>| pairs_to_map(sync_update.pairs().subrange(0, i as int)).contains_key(k),
                |k: Seq<char>| false,
            ));
        }
        assert(sync_update.pairs().subrange(0, i as int) =~= sync_update.pairs());
        let n = sync_update.len();
        self.current_sync_update_checklist = list;
        if n > 0 {
            self.is_syncing = true;
        }
    }

    /// Ticks `path` off; once every path is done the sync is over and the
    /// checklist is cleared.
    pub fn write_off_sync_update_checklist(&mut self, path: String)
        requires
            old(self).wf(),
        ensures
            final(self).wf(),
            ({
                let ticked = old(self).current_sync_update_checklist.map().insert(path@, true);
                if forall|k: Seq<char>| #[trigger] ticked.contains_key(k) ==> ticked[k] {
                    !final(self).is_syncing && final(self).current_sync_update_checklist.map()
                        == Map::<Seq<char>, bool>::empty()
                } else {
                    final(self).is_syncing == old(self).is_syncing
                        && final(self).current_sync_update_checklist.map() == ticked
                }
            }),
            final(self).transfers == old(self).transfers,
            final(self).job_id == old(self).job_id,
            final(self).next_transfer_id == old(self).next_transfer_id,
            final(self).target == old(self).target,
    {
        self.current_sync_update_checklist.insert(path, true);
        let mut all_true = true;
        let mut i: usize = 0;
        let ghost list = self.current_sync_update_checklist.pairs();
        while i < self.current_sync_update_checklist.entries.len()
            invariant
                self.current_sync_update_checklist.wf(),
                list == self.current_sync_update_checklist.pairs(),
                0 <= i <= list.len(),
                all_true == (forall|k: int| 0 <= k < i ==> #[trigger] list[k].1),
            decreases list.len() - i,
        {
            assert(list[i as int].1 == self.current_sync_update_checklist.entries@[i as int].1);
            if !self.current_sync_update_checklist.entries[i].1 {
                all_true = false;
            }
            i = i + 1;
            assert(all_true == (forall|k: int| 0 <= k < i ==> #[trigger] list[k].1)) by {
                if !all_true {
                    if !list[i - 1].1 {
                    } else {
                        let k = choose|k: int| 0 <= k < i - 1 && !list[k].1;
                    }
                }
            }
        }
        proof {
            let m = self.current_sync_update_checklist.map();
            if all_true {
                assert forall|k: Seq<char>| #[trigger] m.contains_key(k) implies m[k] by {
                    crate::strmap::lemma_pairs_to_map_dom(list, k);
                    let j = choose|j: int| 0 <= j < list.len() && list[j].0 == k;
                    crate::strmap::lemma_pairs_to_map_index(list, j);
                }
            } else {
                let j = choose|j: int| 0 <= j < i && !list[j].1;
                crate::strmap::lemma_pairs_to_map_index(list, j);
                assert(m.contains_key(list[j].0) && !m[list[j].0]);
            }
        }
        if all_true {
            self.is_syncing = false;
            self.current_sync_update_checklist = StrMap::new();
        }
    }

    /// The position of the transfer with this id.
    pub fn get_transfer_by_id(&self, transfer_id: u32) -> (r: Option<usize>)
        ensures
            r matches Some(i) ==> i < self.transfers@.len() && self.transfers@[i as int].id == transfer_id,
            r is None ==> forall|i: int| 0 <= i < self.transfers@.len() ==> (#[trigger] self.transfers@[i]).id
                != transfer_id,
            r matches Some(i) ==> first_transfer(self.transfers@, transfer_id) == Some(i as int),
            r is None ==> first_transfer(self.transfers@, transfer_id) is None,
    {
        let mut i: usize = 0;
        while i < self.transfers.len()
            invariant
                0 <= i <= self.transfers@.len(),
                forall|k: int| 0 <= k < i ==> (#[trigger] self.transfers@[k]).id != transfer_id,
            decreases self.transfers@.len() - i,
        {
            if self.transfers[i].id == transfer_id {
                proof {
                    let ts = self.transfers@;
                    let j = choose|j: int| 0 <= j < ts.len() && ts[j].id == transfer_id && forall|k: int| 0 <= k < j ==> (#[trigger] ts[k]).id != transfer_id;
                    assert(0 <= i < ts.len() && ts[i as int].id == transfer_id && forall|k: int| 0 <= k < i ==> (#[trigger] ts[k]).id != transfer_id);
                    if j > i {
                        assert(ts[i as int].id == transfer_id);
                    }
                }
                return Some(i);
            }
            i = i + 1;
        }
        None
    }

    /// The position of the transfer that the server knows as `job_id`.
    pub fn get_transfer_by_job_id(&self, job_id: u32) -> (r: Option<usize>)
        ensures
            r matches Some(i) ==> i < self.transfers@.len() && self.transfers@[i as int].job_id == job_id,
            r is None ==> forall|i: int| 0 <= i < self.transfers@.len() ==> (#[trigger] self.transfers@[i]).job_id
                != job_id,
            r matches Some(i) ==> first_transfer_of_job(self.transfers@, job_id) == Some(i as int),
            r is None ==> first_transfer_of_job(self.transfers@, job_id) is None,
    {
        let mut i: usize = 0;
        while i < self.transfers.len()
            invariant
                0 <= i <= self.transfers@.len(),
                forall|k: int| 0 <= k < i ==> (#[trigger] self.transfers@[k]).job_id != job_id,
            decreases self.transfers@.len() - i,
        {
            if self.transfers[i].job_id == job_id {
                proof {
                    let ts = self.transfers@;
                    let j = choose|j: int| 0 <= j < ts.len() && ts[j].job_id == job_id && forall|k: int| 0 <= k < j ==> (#[trigger] ts[k]).job_id != job_id;
                    assert(0 <= i < ts.len() && ts[i as int].job_id == job_id && forall|k: int| 0 <= k < i ==> (#[trigger] ts[k]).job_id != job_id);
                    if j > i {
                        assert(ts[i as int].job_id == job_id);
                    }
                }
                return Some(i);
            }
            i = i + 1;
        }
        None
    }

    /// Takes in an update from the server. While a sync is in progress the
    /// update is dropped; otherwise its checklist is made and the work it
    /// asks for is returned, entry by entry.
    pub fn handle_sync_update(&mut self, packet: &ControlPacket) -> (r: Vec<(String, Action)>)
        requires
            old(self).wf(),
            packet.wf(),
        ensures
            final(self).wf(),
            old(self).is_syncing ==> r@.len() == 0 && *final(self) == *old(self),
            !old(self).is_syncing ==> r@.map_values(|s: (String, Action)| (s.0@, s.1)) == update_steps(
                packet.params.pairs(),
            ) && final(self).current_sync_update_checklist.map() == Map::new(
                |k: Seq<char>| packet.params.map().contains_key(k),
                |k: Seq<char>| false,
            ) && final(self).is_syncing == (packet.params.map().dom().len() > 0)
                && final(self).transfers == old(self).transfers,
    {
        let mut steps: Vec<(String, Action)> = Vec::new();
        if self.is_syncing {
            return steps;
        }
        self.create_sync_update_checklist(&packet.params);
        let ps = &packet.params;
        let mut i: usize = 0;
        while i < ps.entries.len()
            invariant
                0 <= i <= ps.entries@.len(),
                steps@.map_values(|s: (String, Action)| (s.0@, s.1)) == update_steps(ps.pairs().subrange(0, i as int)),
            decreases ps.entries@.len() - i,
        {
            let ghost pre = ps.pairs().subrange(0, i as int);
            assert(ps.pairs().subrange(0, i + 1).drop_last() =~= pre);
            let ghost before = steps@;
            match parse_action(ps.entries[i].1.as_str()) {
                Some(a) => {
                    if a != Action::SelfDelete {
                        steps.push((ps.entries[i].0.clone(), a));
                        assert(steps@.map_values(|s: (String, Action)| (s.0@, s.1)) =~= before.map_values(
                            |s: (String, Action)| (s.0@, s.1),
                        ).push((ps.pairs()[i as int].0, a)));
                    }
                },
                None => {},
            }
            i = i + 1;
        }
        assert(ps.pairs().subrange(0, i as int) =~= ps.pairs());
        steps
    }
}

pub struct TransferHandler {}

impl TransferHandler {
    pub fn new() -> TransferHandler {
        TransferHandler {}
    }

    /// Registers a transfer of `path` under the next transfer id and
    /// returns its request; a download asks for the server's copy, an upload
    /// announces the client's copy with its time. `None` once every transfer
    /// id has been used.
    pub fn start_transfer(
        &self,
        sync_manager: &mut SyncManager,
        direction: TransferDirection,
        path: String,
        modified_time: u64,
    ) -> (r: Option<ControlPacket>)
        requires
            old(sync_manager).wf(),
        ensures
            final(sync_manager).wf(),
            final(sync_manager).is_syncing == old(sync_manager).is_syncing,
            final(sync_manager).current_sync_update_checklist == old(sync_manager).current_sync_update_checklist,
            final(sync_manager).job_id == old(sync_manager).job_id,
            final(sync_manager).target == old(sync_manager).target,
            old(sync_manager).next_transfer_id == u32::MAX ==> r is None && *final(sync_manager) == *old(sync_manager),
            old(sync_manager).next_transfer_id < u32::MAX ==> ({
                let id = old(sync_manager).next_transfer_id;
                &&& final(sync_manager).next_transfer_id == id + 1
                &&& final(sync_manager).transfers@.len() == old(sync_manager).transfers@.len() + 1
                &&& final(sync_manager).transfers@.drop_last() == old(sync_manager).transfers@
                &&& final(sync_manager).transfers@.last().id == id
                &&& final(sync_manager).transfers@.last().direction == direction
                &&& final(sync_manager).transfers@.last().status == TransferStatus::Requested
                &&& final(sync_manager).transfers@.last().file_path@ == path@
                &&& final(sync_manager).transfers@.last().job_id == 0
                &&& r matches Some(p) && p.wf() && p.view() == transfer_request_view(path@, id, direction, modified_time)
            }),
    {
        let id = sync_manager.next_transfer_id;
        if id == u32::MAX {
            return None;
        }
        sync_manager.next_transfer_id = id + 1;
        let mut params: StrMap<String> = StrMap::new();
        params.insert("file_path".to_owned(), path.clone());
        params.insert("transfer_id".to_owned(), decimal_text(id as u64));
        match direction {
            TransferDirection::ToClient => {
                params.insert("direction".to_owned(), "toClient".to_owned());
            },
            TransferDirection::ToServer => {
                params.insert("direction".to_owned(), "toServer".to_owned());
                params.insert("modified_time".to_owned(), decimal_text(modified_time));
            },
        }
        sync_manager.transfers.push(Transfer::new(direction, id, path));
        assert(sync_manager.transfers@.drop_last() =~= old(sync_manager).transfers@);
        Some(ControlPacket::new(ControlPacketType::TransferRequest, params))
    }

    /// Asks for the server's copy of `path`.
    pub fn start_get_file(&self, sync_manager: &mut SyncManager, path: String) -> (r: Option<ControlPacket>)
        requires
            old(sync_manager).wf(),
        ensures
            final(sync_manager).wf(),
            old(sync_manager).next_transfer_id < u32::MAX ==> (r matches Some(p) && p.wf() && p.view()
                == transfer_request_view(path@, old(sync_manager).next_transfer_id, TransferDirection::ToClient, 0)),
            old(sync_manager).next_transfer_id == u32::MAX ==> r is None,
    {
        self.start_transfer(sync_manager, TransferDirection::ToClient, path, 0)
    }

    /// Announces the client's copy of `path`, last modified at
    /// `modified_time`.
    pub fn start_put_file(&self, sync_manager: &mut SyncManager, path: String, modified_time: u64) -> (r: Option<ControlPacket>)
        requires
            old(sync_manager).wf(),
        ensures
            final(sync_manager).wf(),
            old(sync_manager).next_transfer_id < u32::MAX ==> (r matches Some(p) && p.wf() && p.view()
                == transfer_request_view(path@, old(sync_manager).next_transfer_id, TransferDirection::ToServer, modified_time)),
            old(sync_manager).next_transfer_id == u32::MAX ==> r is None,
    {
        self.start_transfer(sync_manager, TransferDirection::ToServer, path, modified_time)
    }
}

/// Why the client ends a session on a packet.
#[derive(Clone, Copy, Debug, PartialEq, Eq, Structural)]
pub enum ClientError {
    SyncDenied,
    MissingParameter,
    BadParameter,
    UnknownTransfer,
    NotInProgress,
    UnexpectedPacket,
}

/// A parameter that holds a 32-bit number.
pub open spec fn u32_param(m: Map<Seq<char>, Seq<char>>, key: Seq<char>) -> Result<u32, ClientError> {
    match param(m, key) {
        None => Err(ClientError::MissingParameter),
        Some(t) => match decimal_value(t) {
            None => Err(ClientError::BadParameter),
            Some(n) => if n > u32::MAX {
                Err(ClientError::BadParameter)
            } else {
                Ok(n as u32)
            },
        },
    }
}

/// Reads the parameter `key` as a 32-bit number.
pub fn read_u32_param(params: &StrMap<String>, key: &str) -> (r: Result<u32, ClientError>)
    requires
        params.wf(),
    ensures
        r == u32_param(params.map(), key@),
{
    let text = match params.get(key) {
        Some(t) => t,
        None => {
            return Err(ClientError::MissingParameter);
        },
    };
    match parse_decimal(text.as_str()) {
        None => Err(ClientError::BadParameter),
        Some(n) => if n > u32::MAX as u64 {
            Err(ClientError::BadParameter)
        } else {
            Ok(n as u32)
        },
    }
}

/// What the client does on a control packet.
pub enum ClientStep {
    /// Build the target's index and send it in a `SyncIndexResponse` for
    /// this job.
    SendIndex(Option<u32>),
    /// Carry out this work, entry by entry.
    Update(Vec<(String, Action)>),
    /// The session is on as this job: start watching the target.
    StartPolling(u32),
    /// Send this packet.
    Send(ControlPacket),
    /// Send the file of the transfer at this position.
    SendFile(usize),
    /// Nothing to do.
    Nothing,
}

/// The index of the target as the parameters of a `SyncIndexResponse`.
pub fn index_response(job_id: Option<u32>, index: &StrMap<u64>) -> (r: ControlPacket)
    requires
        index.wf(),
        job_id != Some(0u32),
    ensures
        r.wf(),
        r.view() == control_view(ControlPacketType::SyncIndexResponse, job_id, index_params(index.map())),
{
    let mut p = ControlPacket::new(ControlPacketType::SyncIndexResponse, index_to_params(index));
    p.job_id = job_id;
    p
}

pub struct PacketHandler {}

impl PacketHandler {
    pub fn new() -> PacketHandler {
        PacketHandler {}
    }

    /// Acts on a control packet from the server.
    #[verifier::rlimit(80)]
    pub fn handle_control_packet(&self, sync_manager: &mut SyncManager, packet: &ControlPacket) -> (r: Result<
        ClientStep,
        ClientError,
    >)
        requires
            old(sync_manager).wf(),
            packet.wf(),
        ensures
            final(sync_manager).wf(),
            ({
                let m = packet.params.map();
                let sm0 = *old(sync_manager);
                let sm1 = *final(sync_manager);
                match packet.control_packet_type {
                    ControlPacketType::SyncIndexRequest => r matches Ok(ClientStep::SendIndex(j)) && j
                        == sm0.job_id && sm1 == sm0,
                    ControlPacketType::SyncUpdate => r matches Ok(ClientStep::Update(steps)) && (sm0.is_syncing
                        ==> steps@.len() == 0 && sm1 == sm0) && (!sm0.is_syncing ==> steps@.map_values(
                        |s: (String, Action)| (s.0@, s.1),
                    ) == update_steps(packet.params.pairs())),
                    ControlPacketType::SyncAck => match u32_param(m, "job_id"@) {
                        Err(e) => r == Err::<ClientStep, ClientError>(e) && sm1 == sm0,
                        Ok(j) => r matches Ok(ClientStep::StartPolling(k)) && k == j && sm1.job_id == Some(j),
                    },
                    ControlPacketType::SyncDeny => r == Err::<ClientStep, ClientError>(ClientError::SyncDenied)
                        && sm1 == sm0,
                    ControlPacketType::TransferAck => match (u32_param(m, "transfer_id"@), u32_param(m, "job_id"@)) {
                        (Err(e), _) => r == Err::<ClientStep, ClientError>(e) && sm1 == sm0,
                        (Ok(_), Err(e)) => r == Err::<ClientStep, ClientError>(e) && sm1 == sm0,
                        (Ok(tid), Ok(jid)) => match first_transfer(sm0.transfers@, tid) {
                            None => r == Err::<ClientStep, ClientError>(ClientError::UnknownTransfer) && sm1 == sm0,
                            Some(i) => {
                                let t = sm0.transfers@[i];
                                if t.direction == TransferDirection::ToClient {
                                    match param(m, "modified_time"@) {
                                        None => r == Err::<ClientStep, ClientError>(ClientError::MissingParameter),
                                        Some(text) => if decimal_value(text) is None {
                                            r == Err::<ClientStep, ClientError>(ClientError::BadParameter)
                                        } else {
                                            r matches Ok(ClientStep::Send(p)) && p.wf() && p.view() == control_view(
                                            ControlPacketType::TransferStart,
                                            None,
                                            Map::empty().insert("job_id"@, decimal(jid as nat)),
                                        ) && sm1.transfers@[i].status == TransferStatus::Accepted
                                            && sm1.transfers@[i].job_id == jid
                                            && sm1.transfers@[i].original_modified_time == decimal_value(text)->Some_0
                                            && only_transfer_changed(sm0, sm1, i)
                                        },
                                    }
                                } else {
                                    r matches Ok(ClientStep::SendFile(k)) && k == i
                                        && sm1.transfers@[i].status == TransferStatus::Accepted
                                        && sm1.transfers@[i].job_id == jid
                                        && sm1.transfers@[i].original_modified_time == t.original_modified_time
                                        && only_transfer_changed(sm0, sm1, i)
                                }
                            },
                        },
                    },
                    ControlPacketType::TransferDeny => match u32_param(m, "transfer_id"@) {
                        Err(e) => r == Err::<ClientStep, ClientError>(e) && sm1 == sm0,
                        Ok(tid) => match first_transfer(sm0.transfers@, tid) {
                            None => r == Err::<ClientStep, ClientError>(ClientError::UnknownTransfer) && sm1 == sm0,
                            Some(i) => r matches Ok(ClientStep::Nothing) && sm1.transfers@[i].status
                                == TransferStatus::Denied && sm1.transfers@[i].job_id == sm0.transfers@[i].job_id
                                && only_transfer_changed(sm0, sm1, i),
                        },
                    },
                    _ => r == Err::<ClientStep, ClientError>(ClientError::UnexpectedPacket) && sm1 == sm0,
                }
            }),
    {
        match packet.control_packet_type {
            ControlPacketType::SyncIndexRequest => Ok(ClientStep::SendIndex(sync_manager.job_id)),
            ControlPacketType::SyncUpdate => Ok(ClientStep::Update(sync_manager.handle_sync_update(packet))),
            ControlPacketType::SyncAck => {
                let j = match read_u32_param(&packet.params, "job_id") {
                    Ok(j) => j,
                    Err(e) => {
                        return Err(e);
                    },
                };
                sync_manager.job_id = Some(j);
                Ok(ClientStep::StartPolling(j))
            },
            ControlPacketType::SyncDeny => Err(ClientError::SyncDenied),
            ControlPacketType::TransferAck => {
                let tid = match read_u32_param(&packet.params, "transfer_id") {
                    Ok(t) => t,
                    Err(e) => {
                        return Err(e);
                    },
                };
                let jid = match read_u32_param(&packet.params, "job_id") {
                    Ok(j) => j,
                    Err(e) => {
                        return Err(e);
                    },
                };
                let i = match sync_manager.get_transfer_by_id(tid) {
                    Some(i) => i,
                    None => {
                        return Err(ClientError::UnknownTransfer);
                    },
                };
                if sync_manager.transfers[i].direction == TransferDirection::ToClient {
                    let text = match packet.params.get("modified_time") {
                        Some(text) => text,
                        None => {
                            return Err(ClientError::MissingParameter);
                        },
                    };
                    let t = match parse_decimal(text.as_str()) {
                        Some(t) => t,
                        None => {
                            return Err(ClientError::BadParameter);
                        },
                    };
                    sync_manager.transfers[i].status = TransferStatus::Accepted;
                    sync_manager.transfers[i].job_id = jid;
                    sync_manager.transfers[i].original_modified_time = t;
                    let mut params: StrMap<String> = StrMap::new();
                    params.insert("job_id".to_owned(), decimal_text(jid as u64));
                    Ok(ClientStep::Send(ControlPacket::new(ControlPacketType::TransferStart, params)))
                } else {
                    sync_manager.transfers[i].status = TransferStatus::Accepted;
                    sync_manager.transfers[i].job_id = jid;
                    Ok(ClientStep::SendFile(i))
                }
            },
            ControlPacketType::TransferDeny => {
                let tid = match read_u32_param(&packet.params, "transfer_id") {
                    Ok(t) => t,
                    Err(e) => {
                        return Err(e);
                    },
                };
                let i = match sync_manager.get_transfer_by_id(tid) {
                    Some(i) => i,
                    None => {
                        return Err(ClientError::UnknownTransfer);
                    },
                };
                sync_manager.transfers[i].status = TransferStatus::Denied;
                Ok(ClientStep::Nothing)
            },
            _ => Err(ClientError::UnexpectedPacket),
        }
    }
}

/// The file work for one data packet of a download: whether to create the
/// in-progress file first, what to do with the payload, and the path.
pub struct ReceiveStep {
    pub create: bool,
    pub action: DataAction,
    pub file_path: String,
}

impl PacketHandler {
    /// Moves the download that a data packet belongs to: an accepted
    /// transfer starts (its in-progress file is created), a payload is
    /// appended, and the empty packet that ends the stream completes it: the
    /// file is renamed into place with the time the server announced, and
    /// its path is ticked off the checklist.
    pub fn handle_data_packet(&self, sync_manager: &mut SyncManager, packet: &DataPacket) -> (r: Result<
        ReceiveStep,
        ClientError,
    >)
        requires
            old(sync_manager).wf(),
            packet.wf(),
        ensures
            final(sync_manager).wf(),
            match first_transfer_of_job(old(sync_manager).transfers@, packet.job_id) {
                None => r == Err::<ReceiveStep, ClientError>(ClientError::UnknownTransfer)
                    && *final(sync_manager) == *old(sync_manager),
                Some(i) => {
                    let t = old(sync_manager).transfers@[i];
                    if t.status != TransferStatus::Accepted && t.status != TransferStatus::InProgress {
                        r == Err::<ReceiveStep, ClientError>(ClientError::NotInProgress)
                            && *final(sync_manager) == *old(sync_manager)
                    } else {
                        &&& r matches Ok(step) && step.create == (t.status == TransferStatus::Accepted)
                            && step.file_path@ == t.file_path@ && step.action == (if packet.has_data {
                            DataAction::Append
                        } else {
                            DataAction::Finish(t.original_modified_time)
                        })
                        &&& final(sync_manager).transfers@.len() == old(sync_manager).transfers@.len()
                        &&& final(sync_manager).transfers@[i].status == (if packet.has_data {
                            TransferStatus::InProgress
                        } else {
                            TransferStatus::Completed
                        })
                    }
                },
            },
    {
        let i = match sync_manager.get_transfer_by_job_id(packet.job_id) {
            Some(i) => i,
            None => {
                return Err(ClientError::UnknownTransfer);
            },
        };
        let status = sync_manager.transfers[i].status;
        if status != TransferStatus::Accepted && status != TransferStatus::InProgress {
            return Err(ClientError::NotInProgress);
        }
        let create = status == TransferStatus::Accepted;
        let file_path = sync_manager.transfers[i].file_path.clone();
        if packet.has_data {
            sync_manager.transfers[i].status = TransferStatus::InProgress;
            return Ok(ReceiveStep { create, action: DataAction::Append, file_path });
        }
        let t = sync_manager.transfers[i].original_modified_time;
        sync_manager.transfers[i].status = TransferStatus::Completed;
        let n = sync_manager.transfers.len();
        sync_manager.write_off_sync_update_checklist(file_path.clone());
        assert(sync_manager.transfers@.len() == n);
        Ok(ReceiveStep { create, action: DataAction::Finish(t), file_path })
    }
}

/// An index without its build time.
pub open spec fn files_of(ix: Map<Seq<char>, u64>) -> Map<Seq<char>, u64> {
    ix.remove(crate::index_comparer::timestamp_key())
}

/// What the client sends after a change: its index, with a zero for each
/// file of the last index sent that is gone.
pub open spec fn update_index(last: Map<Seq<char>, u64>, current: Map<Seq<char>, u64>) -> Map<Seq<char>, u64> {
    Map::new(
        |k: Seq<char>| current.contains_key(k) || files_of(last).contains_key(k),
        |k: Seq<char>| if current.contains_key(k) {
            current[k]
        } else {
            0
        },
    )
}

/// Whether two indexes list the same files with the same times, their
/// build times aside.
pub fn same_files(a: &StrMap<u64>, b: &StrMap<u64>) -> (r: bool)
    requires
        a.wf(),
        b.wf(),
    ensures
        r == (files_of(a.map()) == files_of(b.map())),
{
    let ghost ts = crate::index_comparer::timestamp_key();
    let mut i: usize = 0;
    while i < a.entries.len()
        invariant
            a.wf(),
            b.wf(),
            ts == crate::index_comparer::timestamp_key(),
            0 <= i <= a.entries@.len(),
            forall|k: int| 0 <= k < i ==> #[trigger] a.pairs()[k].0 == ts || (b.map().contains_key(a.pairs()[k].0)
                && b.map()[a.pairs()[k].0] == a.pairs()[k].1),
        decreases a.entries@.len() - i,
    {
        proof {
            crate::strmap::lemma_pairs_to_map_index(a.pairs(), i as int);
        }
        if !text_eq(a.entries[i].0.as_str(), crate::index::TIMESTAMP_KEY) {
            match b.get(a.entries[i].0.as_str()) {
                None => {
                    assert(a.map().contains_key(a.pairs()[i as int].0));
                    assert(!files_of(b.map()).contains_key(a.pairs()[i as int].0));
                    return false;
                },
                Some(v) => {
                    if *v != a.entries[i].1 {
                        assert(files_of(a.map())[a.pairs()[i as int].0] != files_of(b.map())[a.pairs()[i as int].0]);
                        return false;
                    }
                },
            }
        }
        i = i + 1;
    }
    let mut j: usize = 0;
    while j < b.entries.len()
        invariant
            a.wf(),
            b.wf(),
            ts == crate::index_comparer::timestamp_key(),
            0 <= j <= b.entries@.len(),
            forall|k: int| 0 <= k < b.pairs().len() && k < j ==> #[trigger] b.pairs()[k].0 == ts || a.map().contains_key(b.pairs()[k].0),
        decreases b.entries@.len() - j,
    {
        proof {
            crate::strmap::lemma_pairs_to_map_index(b.pairs(), j as int);
        }
        if !text_eq(b.entries[j].0.as_str(), crate::index::TIMESTAMP_KEY) {
            if !a.contains_key(b.entries[j].0.as_str()) {
                assert(!files_of(a.map()).contains_key(b.pairs()[j as int].0));
                return false;
            }
        }
        j = j + 1;
    }
    proof {
        assert forall|k: Seq<char>| #[trigger] files_of(a.map()).contains_key(k) implies files_of(b.map()).contains_key(k)
            && files_of(b.map())[k] == files_of(a.map())[k] by {
            crate::strmap::lemma_pairs_to_map_dom(a.pairs(), k);
            let x = choose|x: int| 0 <= x < a.pairs().len() && a.pairs()[x].0 == k;
            crate::strmap::lemma_pairs_to_map_index(a.pairs(), x);
        }
        assert forall|k: Seq<char>| #[trigger] files_of(b.map()).contains_key(k) implies files_of(a.map()).contains_key(k) by {
            crate::strmap::lemma_pairs_to_map_dom(b.pairs(), k);
            let x = choose|x: int| 0 <= x < b.pairs().len() && b.pairs()[x].0 == k;
        }
        assert(files_of(a.map()) =~= files_of(b.map()));
    }
    true
}

/// Adds a zero for each file of `last` that `current` lacks.
pub fn with_deletions(last: &StrMap<u64>, current: &StrMap<u64>) -> (r: StrMap<u64>)
    requires
        last.wf(),
        current.wf(),
    ensures
        r.wf(),
        r.map() == update_index(last.map(), current.map()),
{
    let mut r = crate::conversions::copy_index(current);
    assert(r.map() == current.map());
    let mut i: usize = 0;
    while i < last.entries.len()
        invariant
            last.wf(),
            current.wf(),
            r.wf(),
            0 <= i <= last.entries@.len(),
            r.map() == update_index(pairs_to_map(last.pairs().subrange(0, i as int)), current.map()),
        decreases last.entries@.len() - i,
    {
        let ghost pre = last.pairs().subrange(0, i as int);
        let ghost e = last.pairs()[i as int];
        assert(last.pairs().subrange(0, i + 1) =~= pre.push(e));
        proof {
            crate::strmap::lemma_pairs_to_map_push(pre, e.0, e.1);
        }
        let key = last.entries[i].0.as_str();
        if !text_eq(key, crate::index::TIMESTAMP_KEY) && !current.contains_key(key) {
            r.insert(last.entries[i].0.clone(), 0);
        }
        i = i + 1;
        assert(r.map() =~= update_index(pairs_to_map(last.pairs().subrange(0, i as int)), current.map()));
    }
    assert(last.pairs().subrange(0, i as int) =~= last.pairs());
    proof {
        assert(update_index(Map::empty(), current.map()) =~= current.map());
    }
    r
}

/// Watches the target of a sync session: on each tick it compares the index
/// just built with the last one sent, and sends the new one when they differ
/// or when a sync has just ended.
pub struct FsPoller {
    pub path: String,
    pub job_id: u32,
    pub was_just_syncing: bool,
    pub last_sent: StrMap<u64>,
}

impl FsPoller {
    pub fn new(path: String, job_id: u32) -> (r: FsPoller)
        ensures
            r.path == path,
            r.job_id == job_id,
            !r.was_just_syncing,
            r.last_sent.wf(),
            r.last_sent.map() == Map::<Seq<char>, u64>::empty(),
    {
        FsPoller { path, job_id, was_just_syncing: false, last_sent: StrMap::new() }
    }

    /// One tick. While a sync is in progress nothing is sent and the next
    /// tick sends in any case. Otherwise, when the files differ from the last
    /// index sent, or a sync has just ended, the index goes out with a zero
    /// for each file that is gone; it becomes the last index sent unless a
    /// sync has just ended.
    pub fn tick(&mut self, is_syncing: bool, current: StrMap<u64>) -> (r: Option<ControlPacket>)
        requires
            old(self).last_sent.wf(),
            current.wf(),
            old(self).job_id != 0,
        ensures
            final(self).last_sent.wf(),
            final(self).job_id == old(self).job_id,
            is_syncing ==> r is None && final(self).was_just_syncing && final(self).last_sent == old(self).last_sent,
            !is_syncing ==> !final(self).was_just_syncing,
            !is_syncing && !old(self).was_just_syncing && files_of(old(self).last_sent.map()) == files_of(current.map())
                ==> r is None && final(self).last_sent == old(self).last_sent,
            !is_syncing && (old(self).was_just_syncing || files_of(old(self).last_sent.map()) != files_of(current.map()))
                ==> (r matches Some(p) && p.wf() && p.view() == control_view(
                    ControlPacketType::SyncIndexUpdate,
                    Some(old(self).job_id),
                    index_params(update_index(old(self).last_sent.map(), current.map())),
                )),
            !is_syncing && !old(self).was_just_syncing && files_of(old(self).last_sent.map()) != files_of(current.map())
                ==> final(self).last_sent.map() == current.map(),
            !is_syncing && old(self).was_just_syncing ==> final(self).last_sent == old(self).last_sent,
    {
        if is_syncing {
            self.was_just_syncing = true;
            return None;
        }
        let just_synced = self.was_just_syncing;
        self.was_just_syncing = false;
        let same = same_files(&self.last_sent, &current);
        if same && !just_synced {
            return None;
        }
        let sent = with_deletions(&self.last_sent, &current);
        let mut packet = ControlPacket::new(ControlPacketType::SyncIndexUpdate, index_to_params(&sent));
        packet.job_id = Some(self.job_id);
        if !just_synced {
            self.last_sent = current;
        }
        Some(packet)
    }
}

} // verus!
