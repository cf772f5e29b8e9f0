//! Packets and their framing: a control packet carries a kind, an optional
//! job id and text parameters; a data packet carries a slice of a file.
//!
//! Every packet starts with its total length (four bytes, big-endian) and a
//! type byte (`0` control, `1` data).
use vstd::prelude::*;
use vstd::utf8::*;
use crate::strmap::{StrMap, pairs_to_map, text_eq};
use crate::wire::{
    append_bytes, be_bytes, be_u32, find_byte, first_sep, is_first, lemma_be_round_trip,
    lemma_first_sep, push_be_u32, read_be_u32, text_from_utf8,
};

verus! {

broadcast use vstd::utf8::encode_utf8_decode_utf8, vstd::utf8::encode_utf8_valid_utf8;

/// The largest payload of a data packet.
pub const MAX_PAYLOAD: usize = 60000;

/// Bytes before the parameters of a control packet.
pub const CONTROL_HEADER_LEN: usize = 10;

/// Bytes before the payload of a data packet.
pub const DATA_HEADER_LEN: usize = 13;

#[derive(Clone, Copy, Debug, PartialEq, Eq, Structural)]
pub enum PacketType {
    Control,
    Data,
}

pub open spec fn packet_type_of(byte: u8) -> Option<PacketType> {
    if byte == 0 {
        Some(PacketType::Control)
    } else if byte == 1 {
        Some(PacketType::Data)
    } else {
        None
    }
}

impl PacketType {
    /// The type that a type byte names; `None` for an unknown byte.
    pub fn from_byte(byte: u8) -> (r: Option<PacketType>)
        ensures
            r == packet_type_of(byte),
    {
        if byte == 0 {
            Some(PacketType::Control)
        } else if byte == 1 {
            Some(PacketType::Data)
        } else {
            None
        }
    }
}

#[derive(Clone, Copy, Debug, PartialEq, Eq, Structural)]
pub enum ControlPacketType {
    EchoRequest,
    EchoReply,
    TransferRequest,
    TransferAck,
    TransferDeny,
    TransferStart,
    TransferCancel,
    SyncRequest,
    SyncAck,
    SyncDeny,
    SyncUpdate,
    SyncIndexRequest,
    SyncIndexResponse,
    SyncIndexUpdate,
    NoKind,
}

/// The ordinal of a control kind on the wire.
pub open spec fn kind_byte(k: ControlPacketType) -> u8 {
    match k {
        ControlPacketType::EchoRequest => 0,
        ControlPacketType::EchoReply => 1,
        ControlPacketType::TransferRequest => 2,
        ControlPacketType::TransferAck => 3,
        ControlPacketType::TransferDeny => 4,
        ControlPacketType::TransferStart => 5,
        ControlPacketType::TransferCancel => 6,
        ControlPacketType::SyncRequest => 7,
        ControlPacketType::SyncAck => 8,
        ControlPacketType::SyncDeny => 9,
        ControlPacketType::SyncUpdate => 10,
        ControlPacketType::SyncIndexRequest => 11,
        ControlPacketType::SyncIndexResponse => 12,
        ControlPacketType::SyncIndexUpdate => 13,
        ControlPacketType::NoKind => 14,
    }
}

/// The control kind with ordinal `byte`, if there is one.
pub open spec fn control_kind_of(byte: u8) -> Option<ControlPacketType> {
    if byte == 0 { Some(ControlPacketType::EchoRequest) }
    else if byte == 1 { Some(ControlPacketType::EchoReply) }
    else if byte == 2 { Some(ControlPacketType::TransferRequest) }
    else if byte == 3 { Some(ControlPacketType::TransferAck) }
    else if byte == 4 { Some(ControlPacketType::TransferDeny) }
    else if byte == 5 { Some(ControlPacketType::TransferStart) }
    else if byte == 6 { Some(ControlPacketType::TransferCancel) }
    else if byte == 7 { Some(ControlPacketType::SyncRequest) }
    else if byte == 8 { Some(ControlPacketType::SyncAck) }
    else if byte == 9 { Some(ControlPacketType::SyncDeny) }
    else if byte == 10 { Some(ControlPacketType::SyncUpdate) }
    else if byte == 11 { Some(ControlPacketType::SyncIndexRequest) }
    else if byte == 12 { Some(ControlPacketType::SyncIndexResponse) }
    else if byte == 13 { Some(ControlPacketType::SyncIndexUpdate) }
    else if byte == 14 { Some(ControlPacketType::NoKind) }
    else { None }
}

pub proof fn lemma_kind_byte_round_trip(k: ControlPacketType)
    ensures
        control_kind_of(kind_byte(k)) == Some(k),
{
}

impl ControlPacketType {
    /// The control kind with ordinal `byte`; `None` for an unknown ordinal.
    pub fn from_byte(byte: u8) -> (r: Option<ControlPacketType>)
        ensures
            r == control_kind_of(byte),
    {
        match byte {
            0 => Some(ControlPacketType::EchoRequest),
            1 => Some(ControlPacketType::EchoReply),
            2 => Some(ControlPacketType::TransferRequest),
            3 => Some(ControlPacketType::TransferAck),
            4 => Some(ControlPacketType::TransferDeny),
            5 => Some(ControlPacketType::TransferStart),
            6 => Some(ControlPacketType::TransferCancel),
            7 => Some(ControlPacketType::SyncRequest),
            8 => Some(ControlPacketType::SyncAck),
            9 => Some(ControlPacketType::SyncDeny),
            10 => Some(ControlPacketType::SyncUpdate),
            11 => Some(ControlPacketType::SyncIndexRequest),
            12 => Some(ControlPacketType::SyncIndexResponse),
            13 => Some(ControlPacketType::SyncIndexUpdate),
            14 => Some(ControlPacketType::NoKind),
            _ => None,
        }
    }

    pub fn to_byte(&self) -> (r: u8)
        ensures
            r == kind_byte(*self),
    {
        match self {
            ControlPacketType::EchoRequest => 0,
            ControlPacketType::EchoReply => 1,
            ControlPacketType::TransferRequest => 2,
            ControlPacketType::TransferAck => 3,
            ControlPacketType::TransferDeny => 4,
            ControlPacketType::TransferStart => 5,
            ControlPacketType::TransferCancel => 6,
            ControlPacketType::SyncRequest => 7,
            ControlPacketType::SyncAck => 8,
            ControlPacketType::SyncDeny => 9,
            ControlPacketType::SyncUpdate => 10,
            ControlPacketType::SyncIndexRequest => 11,
            ControlPacketType::SyncIndexResponse => 12,
            ControlPacketType::SyncIndexUpdate => 13,
            ControlPacketType::NoKind => 14,
        }
    }
}

/// The byte between a parameter's key and its value.
pub const EQUALS: u8 = 61;

/// The byte after each parameter.
pub const SEMICOLON: u8 = 59;

/// Why a byte sequence is not a packet.
#[derive(Clone, Copy, Debug, PartialEq, Eq, Structural)]
pub enum DecodeError {
    /// Fewer bytes than the header of the packet's type.
    TooShort,
    /// The length prefix differs from the number of bytes.
    LengthMismatch,
    /// A length prefix below the smallest possible packet.
    BadLength,
    UnknownPacketType,
    UnknownControlKind,
    /// A parameter entry without `=`.
    MalformedParameter,
    /// A parameter key or value that is not UTF-8.
    InvalidText,
    /// A data payload above the largest allowed.
    PayloadTooLarge,
}

/// What a control packet states.
pub struct ControlView {
    pub kind: ControlPacketType,
    pub job_id: Option<u32>,
    pub params: Map<Seq<char>, Seq<char>>,
}

/// What a data packet states.
pub struct DataView {
    pub job_id: u32,
    pub packet_number: u32,
    pub data: Seq<u8>,
}

pub enum PacketView {
    Control(ControlView),
    Data(DataView),
}

/// The job id as written on the wire: zero for none.
pub open spec fn job_word(job_id: Option<u32>) -> u32 {
    match job_id {
        Some(j) => j,
        None => 0,
    }
}

/// The job id that a wire word stands for.
pub open spec fn job_of_word(w: nat) -> Option<u32> {
    if w == 0 {
        None
    } else {
        Some(w as u32)
    }
}

/// One parameter on the wire: `key=value;`.
pub open spec fn entry_bytes(k: Seq<char>, v: Seq<char>) -> Seq<u8> {
    encode_utf8(k) + seq![EQUALS] + encode_utf8(v) + seq![SEMICOLON]
}

/// The parameters on the wire, in the order given.
pub open spec fn params_bytes(ps: Seq<(Seq<char>, Seq<char>)>) -> Seq<u8>
    decreases ps.len(),
{
    if ps.len() == 0 {
        Seq::empty()
    } else {
        params_bytes(ps.drop_last()) + entry_bytes(ps.last().0, ps.last().1)
    }
}

/// The bytes of a control packet.
pub open spec fn control_bytes(
    kind: ControlPacketType,
    job_id: Option<u32>,
    ps: Seq<(Seq<char>, Seq<char>)>,
) -> Seq<u8> {
    be_bytes((CONTROL_HEADER_LEN + params_bytes(ps).len()) as u32) + seq![0u8, kind_byte(kind)]
        + be_bytes(job_word(job_id)) + params_bytes(ps)
}

/// The bytes of a data packet.
pub open spec fn data_bytes(job_id: u32, packet_number: u32, data: Seq<u8>) -> Seq<u8> {
    be_bytes((DATA_HEADER_LEN + data.len()) as u32) + seq![1u8] + be_bytes(job_id) + be_bytes(
        packet_number,
    ) + data
}

/// Reads one parameter entry into `acc`. An entry shorter than three bytes
/// is skipped; the value ends at the next `=`, if any.
pub open spec fn add_entry(acc: Map<Seq<char>, Seq<char>>, e: Seq<u8>) -> Result<
    Map<Seq<char>, Seq<char>>,
    DecodeError,
> {
    if e.len() < 3 {
        Ok(acc)
    } else {
        let q = first_sep(e, EQUALS);
        if q >= e.len() {
            Err(DecodeError::MalformedParameter)
        } else {
            let key = e.subrange(0, q);
            let rest = e.subrange(q + 1, e.len() as int);
            let value = rest.subrange(0, first_sep(rest, EQUALS));
            if valid_utf8(key) && valid_utf8(value) {
                Ok(acc.insert(decode_utf8(key), decode_utf8(value)))
            } else {
                Err(DecodeError::InvalidText)
            }
        }
    }
}

/// Reads the `;`-separated entries of `s` into `acc`, left to right.
pub open spec fn parse_entries(s: Seq<u8>, acc: Map<Seq<char>, Seq<char>>) -> Result<
    Map<Seq<char>, Seq<char>>,
    DecodeError,
>
    decreases s.len(),
{
    let j = first_sep(s, SEMICOLON);
    match add_entry(acc, s.subrange(0, j)) {
        Err(e) => Err(e),
        Ok(m) => if 0 <= j && j < s.len() {
            parse_entries(s.subrange(j + 1, s.len() as int), m)
        } else {
            Ok(m)
        },
    }
}

/// What a byte sequence decodes to.
#[verifier::opaque]
pub open spec fn decode_packet(b: Seq<u8>) -> Result<PacketView, DecodeError> {
    if b.len() < 5 {
        Err(DecodeError::TooShort)
    } else if be_u32(b) != b.len() {
        Err(DecodeError::LengthMismatch)
    } else {
        match packet_type_of(b[4]) {
            None => Err(DecodeError::UnknownPacketType),
            Some(PacketType::Control) => if b.len() < CONTROL_HEADER_LEN {
                Err(DecodeError::TooShort)
            } else {
                match control_kind_of(b[5]) {
                    None => Err(DecodeError::UnknownControlKind),
                    Some(k) => match parse_entries(
                        b.subrange(CONTROL_HEADER_LEN as int, b.len() as int),
                        Map::empty(),
                    ) {
                        Err(e) => Err(e),
                        Ok(m) => Ok(
                            PacketView::Control(
                                ControlView {
                                    kind: k,
                                    job_id: job_of_word(be_u32(b.subrange(6, 10))),
                                    params: m,
                                },
                            ),
                        ),
                    },
                }
            },
            Some(PacketType::Data) => if b.len() < DATA_HEADER_LEN {
                Err(DecodeError::TooShort)
            } else if b.len() - DATA_HEADER_LEN > MAX_PAYLOAD {
                Err(DecodeError::PayloadTooLarge)
            } else {
                Ok(
                    PacketView::Data(
                        DataView {
                            job_id: be_u32(b.subrange(5, 9)) as u32,
                            packet_number: be_u32(b.subrange(9, 13)) as u32,
                            data: b.subrange(DATA_HEADER_LEN as int, b.len() as int),
                        },
                    ),
                )
            },
        }
    }
}

pub struct ControlPacket {
    pub packet_type: PacketType,
    pub control_packet_type: ControlPacketType,
    pub job_id: Option<u32>,
    pub params: StrMap<String>,
}

impl ControlPacket {
    pub open spec fn view(&self) -> ControlView {
        ControlView {
            kind: self.control_packet_type,
            job_id: self.job_id,
            params: self.params.map(),
        }
    }

    /// A well-formed control packet: its type says control, a job id is
    /// never zero (zero means none on the wire) and the keys are distinct.
    pub open spec fn wf(&self) -> bool {
        &&& self.packet_type == PacketType::Control
        &&& self.job_id != Some(0u32)
        &&& self.params.wf()
    }

    /// The number of bytes that this packet takes on the wire.
    pub open spec fn spec_size(&self) -> nat {
        (CONTROL_HEADER_LEN + params_bytes(self.params.pairs()).len()) as nat
    }

    pub fn new(control_packet_type: ControlPacketType, params: StrMap<String>) -> (r: ControlPacket)
        requires
            params.wf(),
        ensures
            r.wf(),
            r.control_packet_type == control_packet_type,
            r.job_id is None,
            r.params == params,
    {
        ControlPacket { packet_type: PacketType::Control, control_packet_type, job_id: None, params }
    }

    pub fn calculate_packet_size(&self) -> (r: u32)
        requires
            self.spec_size() <= u32::MAX,
        ensures
            r == self.spec_size(),
    {
        let mut size: usize = CONTROL_HEADER_LEN;
        let mut i: usize = 0;
        let ghost ps = self.params.pairs();
        while i < self.params.entries.len()
            invariant
                ps == self.params.pairs(),
                0 <= i <= ps.len(),
                size == CONTROL_HEADER_LEN + params_bytes(ps.subrange(0, i as int)).len(),
                self.spec_size() <= u32::MAX,
            decreases ps.len() - i,
        {
            proof {
                assert(ps.subrange(0, i + 1).drop_last() =~= ps.subrange(0, i as int));
                lemma_params_bytes_prefix(ps, i + 1);
            }
            let k = self.params.entries[i].0.as_str().as_bytes().len();
            let v = self.params.entries[i].1.as_str().as_bytes().len();
            size = size + k + v + 2;
            i = i + 1;
        }
        assert(ps.subrange(0, i as int) =~= ps);
        size as u32
    }

    /// The bytes of this packet on the wire; `None` when its length does not
    /// fit the four-byte prefix.
    pub fn try_to_buffer(&self) -> (r: Option<Vec<u8>>)
        ensures
            self.spec_size() <= u32::MAX ==> (r matches Some(b) && b@ == control_bytes(
                self.control_packet_type,
                self.job_id,
                self.params.pairs(),
            )),
            self.spec_size() > u32::MAX ==> r is None,
    {
        let mut size: u64 = CONTROL_HEADER_LEN as u64;
        let mut i: usize = 0;
        let ghost ps = self.params.pairs();
        while i < self.params.entries.len()
            invariant
                ps == self.params.pairs(),
                0 <= i <= ps.len(),
                size == CONTROL_HEADER_LEN + params_bytes(ps.subrange(0, i as int)).len(),
                size <= u32::MAX,
            decreases ps.len() - i,
        {
            proof {
                assert(ps.subrange(0, i + 1).drop_last() =~= ps.subrange(0, i as int));
                lemma_params_bytes_prefix(ps, i + 1);
            }
            let k = self.params.entries[i].0.as_str().as_bytes().len() as u64;
            let v = self.params.entries[i].1.as_str().as_bytes().len() as u64;
            if k > u32::MAX as u64 || v > u32::MAX as u64 || size + k + v + 2 > u32::MAX as u64 {
                proof {
                    lemma_params_bytes_prefix(ps, i + 1);
                }
                return None;
            }
            size = size + k + v + 2;
            i = i + 1;
        }
        assert(ps.subrange(0, i as int) =~= ps);
        Some(self.to_buffer())
    }

    /// The bytes of this packet on the wire.
    pub fn to_buffer(&self) -> (r: Vec<u8>)
        requires
            self.spec_size() <= u32::MAX,
        ensures
            r@ == control_bytes(self.control_packet_type, self.job_id, self.params.pairs()),
    {
        let mut buffer: Vec<u8> = Vec::new();
        push_be_u32(&mut buffer, self.calculate_packet_size());
        buffer.push(0u8);
        buffer.push(self.control_packet_type.to_byte());
        let job: u32 = match self.job_id {
            Some(j) => j,
            None => 0,
        };
        push_be_u32(&mut buffer, job);
        let ghost head = buffer@;
        let ghost ps = self.params.pairs();
        let mut i: usize = 0;
        while i < self.params.entries.len()
            invariant
                ps == self.params.pairs(),
                0 <= i <= ps.len(),
                buffer@ == head + params_bytes(ps.subrange(0, i as int)),
            decreases ps.len() - i,
        {
            assert(ps.subrange(0, i + 1).drop_last() =~= ps.subrange(0, i as int));
            append_bytes(&mut buffer, self.params.entries[i].0.as_str().as_bytes());
            buffer.push(EQUALS);
            append_bytes(&mut buffer, self.params.entries[i].1.as_str().as_bytes());
            buffer.push(SEMICOLON);
            i = i + 1;
            assert(buffer@ =~= head + params_bytes(ps.subrange(0, i as int)));
        }
        assert(ps.subrange(0, i as int) =~= ps);
        assert(buffer@ =~= control_bytes(self.control_packet_type, self.job_id, ps));
        buffer
    }

    pub fn get_packet_type(&self) -> (r: PacketType)
        ensures
            r == self.packet_type,
    {
        self.packet_type
    }
}

pub proof fn lemma_params_bytes_prefix(ps: Seq<(Seq<char>, Seq<char>)>, i: int)
    requires
        0 < i <= ps.len(),
    ensures
        params_bytes(ps.subrange(0, i)) == params_bytes(ps.subrange(0, i - 1)) + entry_bytes(
            ps[i - 1].0,
            ps[i - 1].1,
        ),
        params_bytes(ps.subrange(0, i)).len() <= params_bytes(ps).len(),
    decreases ps.len() - i,
{
    assert(ps.subrange(0, i).drop_last() =~= ps.subrange(0, i - 1));
    if i < ps.len() {
        lemma_params_bytes_prefix(ps, i + 1);
        assert(ps.subrange(0, i + 1).drop_last() =~= ps.subrange(0, i));
    } else {
        assert(ps.subrange(0, i) =~= ps);
    }
}

pub struct DataPacket {
    pub packet_type: PacketType,
    pub job_id: u32,
    pub packet_number: u32,
    pub data: Vec<u8>,
    pub has_data: bool,
}

impl DataPacket {
    pub open spec fn view(&self) -> DataView {
        DataView { job_id: self.job_id, packet_number: self.packet_number, data: self.data@ }
    }

    /// A well-formed data packet: its type says data, `has_data` tells
    /// whether the payload is empty, and the payload fits in one packet.
    pub open spec fn wf(&self) -> bool {
        &&& self.packet_type == PacketType::Data
        &&& self.has_data == (self.data@.len() > 0)
        &&& self.data@.len() <= MAX_PAYLOAD
    }

    pub fn new(job_id: u32, data: Vec<u8>, packet_number: u32) -> (r: DataPacket)
        requires
            data@.len() <= MAX_PAYLOAD,
        ensures
            r.wf(),
            r.job_id == job_id,
            r.packet_number == packet_number,
            r.data@ == data@,
    {
        let has_data = data.len() > 0;
        DataPacket { packet_type: PacketType::Data, job_id, packet_number, data, has_data }
    }

    pub fn calculate_packet_size(&self) -> (r: u32)
        requires
            self.wf(),
        ensures
            r == DATA_HEADER_LEN + self.data@.len(),
    {
        (DATA_HEADER_LEN + self.data.len()) as u32
    }

    /// The bytes of this packet on the wire.
    pub fn to_buffer(&self) -> (r: Vec<u8>)
        requires
            self.wf(),
        ensures
            r@ == data_bytes(self.job_id, self.packet_number, self.data@),
    {
        let mut buffer: Vec<u8> = Vec::new();
        push_be_u32(&mut buffer, self.calculate_packet_size());
        buffer.push(1u8);
        push_be_u32(&mut buffer, self.job_id);
        push_be_u32(&mut buffer, self.packet_number);
        append_bytes(&mut buffer, self.data.as_slice());
        assert(buffer@ =~= data_bytes(self.job_id, self.packet_number, self.data@));
        buffer
    }

    pub fn get_packet_type(&self) -> (r: PacketType)
        ensures
            r == self.packet_type,
    {
        self.packet_type
    }
}

/// A packet of either type.
pub enum Packet {
    Control(ControlPacket),
    Data(DataPacket),
}

impl Packet {
    pub open spec fn view(&self) -> PacketView {
        match self {
            Packet::Control(c) => PacketView::Control(c.view()),
            Packet::Data(d) => PacketView::Data(d.view()),
        }
    }

    pub open spec fn wf(&self) -> bool {
        match self {
            Packet::Control(c) => c.wf(),
            Packet::Data(d) => d.wf(),
        }
    }

    /// The bytes of this packet on the wire.
    #[verifier::opaque]
    pub open spec fn spec_bytes(&self) -> Seq<u8> {
        match self {
            Packet::Control(c) => control_bytes(c.control_packet_type, c.job_id, c.params.pairs()),
            Packet::Data(d) => data_bytes(d.job_id, d.packet_number, d.data@),
        }
    }

    /// The packet fits the wire: a control packet's length fits the prefix.
    pub open spec fn fits(&self) -> bool {
        match self {
            Packet::Control(c) => c.spec_size() <= u32::MAX,
            Packet::Data(d) => true,
        }
    }

    pub fn get_packet_type(&self) -> (r: PacketType)
        requires
            self.wf(),
        ensures
            r == (match self {
                Packet::Control(_) => PacketType::Control,
                Packet::Data(_) => PacketType::Data,
            }),
    {
        match self {
            Packet::Control(c) => c.get_packet_type(),
            Packet::Data(d) => d.get_packet_type(),
        }
    }

    pub fn to_buffer(&self) -> (r: Vec<u8>)
        requires
            self.wf(),
            self.fits(),
        ensures
            r@ == self.spec_bytes(),
    {
        reveal(Packet::spec_bytes);
        match self {
            Packet::Control(c) => c.to_buffer(),
            Packet::Data(d) => d.to_buffer(),
        }
    }
}

/// The total length that a packet's first four bytes declare.
pub fn get_packet_length(buffer: &[u8]) -> (r: u32)
    requires
        buffer@.len() >= 4,
    ensures
        r == be_u32(buffer@),
{
    let r = read_be_u32(buffer, 0);
    assert(buffer@.subrange(0, 4)[0] == buffer@[0]);
    assert(buffer@.subrange(0, 4)[3] == buffer@[3]);
    assert(buffer@.subrange(0, 4)[1] == buffer@[1]);
    assert(buffer@.subrange(0, 4)[2] == buffer@[2]);
    r
}

/// Reads the entry `b[lo..hi]` into `params`.
fn read_entry(b: &[u8], lo: usize, hi: usize, params: &mut StrMap<String>) -> (r: Result<(), DecodeError>)
    requires
        lo <= hi <= b@.len(),
        old(params).wf(),
    ensures
        final(params).wf(),
        match (r, add_entry(old(params).map(), b@.subrange(lo as int, hi as int))) {
            (Ok(()), Ok(m)) => final(params).map() == m,
            (Err(e), Err(e2)) => e == e2,
            _ => false,
        },
{
    let ghost e = b@.subrange(lo as int, hi as int);
    if hi - lo < 3 {
        return Ok(());
    }
    let q = find_byte(b, lo, hi, EQUALS);
    proof {
        assert(is_first(e, EQUALS, q - lo));
        lemma_first_sep(e, EQUALS, q - lo);
    }
    if q == hi {
        return Err(DecodeError::MalformedParameter);
    }
    let t = find_byte(b, q + 1, hi, EQUALS);
    let ghost rest = e.subrange(q - lo + 1, e.len() as int);
    proof {
        assert(rest =~= b@.subrange(q + 1, hi as int));
        assert(is_first(rest, EQUALS, t - q - 1));
        lemma_first_sep(rest, EQUALS, t - q - 1);
        assert(e.subrange(0, q - lo) =~= b@.subrange(lo as int, q as int));
        assert(rest.subrange(0, t - q - 1) =~= b@.subrange(q + 1, t as int));
    }
    let key = text_from_utf8(vstd::slice::slice_to_vec(vstd::slice::slice_subrange(b, lo, q)));
    let value = text_from_utf8(vstd::slice::slice_to_vec(vstd::slice::slice_subrange(b, q + 1, t)));
    match (key, value) {
        (Some(k), Some(v)) => {
            params.insert(k, v);
            Ok(())
        },
        _ => Err(DecodeError::InvalidText),
    }
}

/// Reads the parameters in `b[from..]`.
fn read_params(b: &[u8], from: usize) -> (r: Result<StrMap<String>, DecodeError>)
    requires
        from <= b@.len(),
    ensures
        match (r, parse_entries(b@.subrange(from as int, b@.len() as int), Map::empty())) {
            (Ok(p), Ok(m)) => p.wf() && p.map() == m,
            (Err(e), Err(e2)) => e == e2,
            _ => false,
        },
{
    let n = b.len();
    let mut params: StrMap<String> = StrMap::new();
    let mut start = from;
    let ghost whole = b@.subrange(from as int, n as int);
    loop
        invariant
            from <= start <= n,
            n == b@.len(),
            whole == b@.subrange(from as int, n as int),
            params.wf(),
            parse_entries(whole, Map::empty()) == parse_entries(
                b@.subrange(start as int, n as int),
                params.map(),
            ),
        decreases n - start,
    {
        let ghost s = b@.subrange(start as int, n as int);
        let j = find_byte(b, start, n, SEMICOLON);
        proof {
            assert(is_first(s, SEMICOLON, j - start));
            lemma_first_sep(s, SEMICOLON, j - start);
            assert(s.subrange(0, j - start) =~= b@.subrange(start as int, j as int));
        }
        let ghost m0 = params.map();
        let ghost step = add_entry(m0, b@.subrange(start as int, j as int));
        assert(parse_entries(s, m0) == match step {
            Err(e) => Err(e),
            Ok(m) => if 0 <= j - start && j - start < s.len() {
                parse_entries(s.subrange(j - start + 1, s.len() as int), m)
            } else {
                Ok(m)
            },
        });
        let res = read_entry(b, start, j, &mut params);
        match res {
            Err(e) => {
                return Err(e);
            },
            Ok(()) => {},
        }
        if j < n {
            proof {
                assert(s.subrange(j - start + 1, s.len() as int) =~= b@.subrange(j + 1, n as int));
            }
            start = j + 1;
        } else {
            return Ok(params);
        }
    }
}

/// Decodes one whole packet.
pub fn deserialize_packet(buffer: &[u8]) -> (r: Result<Packet, DecodeError>)
    ensures
        match r {
            Ok(p) => p.wf() && decode_packet(buffer@) == Ok::<PacketView, DecodeError>(p.view()),
            Err(e) => decode_packet(buffer@) == Err::<PacketView, DecodeError>(e),
        },
{
    reveal(decode_packet);
    let n = buffer.len();
    if n < 5 {
        return Err(DecodeError::TooShort);
    }
    if get_packet_length(buffer) as usize != n {
        return Err(DecodeError::LengthMismatch);
    }
    match PacketType::from_byte(buffer[4]) {
        None => Err(DecodeError::UnknownPacketType),
        Some(PacketType::Control) => {
            if n < CONTROL_HEADER_LEN {
                return Err(DecodeError::TooShort);
            }
            let kind = match ControlPacketType::from_byte(buffer[5]) {
                None => {
                    return Err(DecodeError::UnknownControlKind);
                },
                Some(k) => k,
            };
            let word = read_be_u32(buffer, 6);
            let params = match read_params(buffer, CONTROL_HEADER_LEN) {
                Err(e) => {
                    return Err(e);
                },
                Ok(p) => p,
            };
            let job_id = if word == 0 {
                None
            } else {
                Some(word)
            };
            Ok(
                Packet::Control(
                    ControlPacket {
                        packet_type: PacketType::Control,
                        control_packet_type: kind,
                        job_id,
                        params,
                    },
                ),
            )
        },
        Some(PacketType::Data) => {
            if n < DATA_HEADER_LEN {
                return Err(DecodeError::TooShort);
            }
            if n - DATA_HEADER_LEN > MAX_PAYLOAD {
                return Err(DecodeError::PayloadTooLarge);
            }
            let job_id = read_be_u32(buffer, 5);
            let packet_number = read_be_u32(buffer, 9);
            let data = vstd::slice::slice_to_vec(vstd::slice::slice_subrange(buffer, DATA_HEADER_LEN, n));
            Ok(Packet::Data(DataPacket::new(job_id, data, packet_number)))
        },
    }
}

/// The text encodes to bytes among which neither `=` nor `;` occurs.
pub open spec fn clean_text(t: Seq<char>) -> bool {
    forall|i: int|
        0 <= i < encode_utf8(t).len() ==> encode_utf8(t)[i] != EQUALS && encode_utf8(t)[i]
            != SEMICOLON
}

/// Parameters that survive the wire: no key or value holds `=` or `;`, and
/// no entry is shorter than three bytes (such entries are skipped).
pub open spec fn sendable_params(ps: Seq<(Seq<char>, Seq<char>)>) -> bool {
    forall|i: int|
        0 <= i < ps.len() ==> clean_text(#[trigger] ps[i].0) && clean_text(ps[i].1)
            && encode_utf8(ps[i].0).len() + encode_utf8(ps[i].1).len() >= 2
}

pub proof fn lemma_params_bytes_front(ps: Seq<(Seq<char>, Seq<char>)>)
    requires
        ps.len() > 0,
    ensures
        params_bytes(ps) == entry_bytes(ps[0].0, ps[0].1) + params_bytes(ps.drop_first()),
    decreases ps.len(),
{
    if ps.len() == 1 {
        assert(ps.drop_last() =~= Seq::<(Seq<char>, Seq<char>)>::empty());
        assert(ps.drop_first() =~= Seq::<(Seq<char>, Seq<char>)>::empty());
        assert(params_bytes(ps) =~= entry_bytes(ps[0].0, ps[0].1) + params_bytes(ps.drop_first()));
    } else {
        lemma_params_bytes_front(ps.drop_last());
        assert(ps.drop_last().drop_first() =~= ps.drop_first().drop_last());
        assert(ps.drop_first().last() == ps.last());
        assert(params_bytes(ps) =~= entry_bytes(ps[0].0, ps[0].1) + params_bytes(ps.drop_first()));
    }
}

proof fn lemma_parse_one_entry(k: Seq<char>, v: Seq<char>, tail: Seq<u8>, acc: Map<Seq<char>, Seq<char>>)
    requires
        clean_text(k),
        clean_text(v),
        encode_utf8(k).len() + encode_utf8(v).len() >= 2,
    ensures
        parse_entries(entry_bytes(k, v) + tail, acc) == parse_entries(tail, acc.insert(k, v)),
{
    let ek = encode_utf8(k);
    let ev = encode_utf8(v);
    let s = entry_bytes(k, v) + tail;
    let j: int = ek.len() + 1int + ev.len();
    assert(is_first(s, SEMICOLON, j as int)) by {
        assert forall|i: int| 0 <= i < j implies s[i] != SEMICOLON by {
            if i < ek.len() {
                assert(s[i] == ek[i]);
            } else if i > ek.len() {
                assert(s[i] == ev[i - ek.len() - 1]);
            }
        }
    }
    lemma_first_sep(s, SEMICOLON, j as int);
    let e = s.subrange(0, j as int);
    assert(e =~= ek + seq![EQUALS] + ev);
    assert(is_first(e, EQUALS, ek.len() as int)) by {
        assert forall|i: int| 0 <= i < ek.len() implies e[i] != EQUALS by {
            assert(e[i] == ek[i]);
        }
    }
    lemma_first_sep(e, EQUALS, ek.len() as int);
    let rest = e.subrange(ek.len() + 1int, e.len() as int);
    assert(rest =~= ev);
    assert(is_first(rest, EQUALS, ev.len() as int));
    lemma_first_sep(rest, EQUALS, ev.len() as int);
    assert(e.subrange(0, ek.len() as int) =~= ek);
    assert(rest.subrange(0, ev.len() as int) =~= ev);
    assert(add_entry(acc, e) == Ok::<Map<Seq<char>, Seq<char>>, DecodeError>(acc.insert(k, v)));
    assert(s.subrange(j + 1int, s.len() as int) =~= tail);
}

proof fn lemma_parse_params_from(ps: Seq<(Seq<char>, Seq<char>)>, i: int)
    requires
        sendable_params(ps),
        0 <= i <= ps.len(),
    ensures
        parse_entries(params_bytes(ps.subrange(i, ps.len() as int)), pairs_to_map(ps.subrange(0, i)))
            == Ok::<Map<Seq<char>, Seq<char>>, DecodeError>(pairs_to_map(ps)),
    decreases ps.len() - i,
{
    let rest = ps.subrange(i, ps.len() as int);
    if i == ps.len() {
        assert(rest.len() == 0);
        assert(ps.subrange(0, i) =~= ps);
        let s = params_bytes(rest);
        assert(s.len() == 0);
        assert(is_first(s, SEMICOLON, 0));
        lemma_first_sep(s, SEMICOLON, 0);
    } else {
        lemma_params_bytes_front(rest);
        assert(rest.drop_first() =~= ps.subrange(i + 1, ps.len() as int));
        assert(rest[0] == ps[i]);
        lemma_parse_one_entry(ps[i].0, ps[i].1, params_bytes(rest.drop_first()), pairs_to_map(ps.subrange(0, i)));
        assert(ps.subrange(0, i + 1).drop_last() =~= ps.subrange(0, i));
        lemma_parse_params_from(ps, i + 1);
    }
}

/// Decoding the bytes of a data packet gives back its job id, packet number
/// and payload.
pub proof fn lemma_data_round_trip(job_id: u32, packet_number: u32, data: Seq<u8>)
    requires
        data.len() <= MAX_PAYLOAD,
    ensures
        decode_packet(data_bytes(job_id, packet_number, data)) == Ok::<PacketView, DecodeError>(
            PacketView::Data(DataView { job_id, packet_number, data }),
        ),
{
    reveal(decode_packet);
    let b = data_bytes(job_id, packet_number, data);
    let n: u32 = (DATA_HEADER_LEN + data.len()) as u32;
    lemma_be_round_trip(n);
    lemma_be_round_trip(job_id);
    lemma_be_round_trip(packet_number);
    assert(b.subrange(0, 4) =~= be_bytes(n));
    assert(be_u32(b) == be_u32(b.subrange(0, 4)));
    assert(b.subrange(5, 9) =~= be_bytes(job_id));
    assert(b.subrange(9, 13) =~= be_bytes(packet_number));
    assert(b.subrange(DATA_HEADER_LEN as int, b.len() as int) =~= data);
}

/// Decoding the bytes of a control packet gives back its kind, job id and
/// parameters, as long as the parameters are sendable.
pub proof fn lemma_control_round_trip(
    kind: ControlPacketType,
    job_id: Option<u32>,
    ps: Seq<(Seq<char>, Seq<char>)>,
)
    requires
        job_id != Some(0u32),
        sendable_params(ps),
        CONTROL_HEADER_LEN + params_bytes(ps).len() <= u32::MAX,
    ensures
        decode_packet(control_bytes(kind, job_id, ps)) == Ok::<PacketView, DecodeError>(
            PacketView::Control(ControlView { kind, job_id, params: pairs_to_map(ps) }),
        ),
{
    reveal(decode_packet);
    let b = control_bytes(kind, job_id, ps);
    let n: u32 = (CONTROL_HEADER_LEN + params_bytes(ps).len()) as u32;
    lemma_be_round_trip(n);
    lemma_be_round_trip(job_word(job_id));
    lemma_kind_byte_round_trip(kind);
    assert(b.subrange(0, 4) =~= be_bytes(n));
    assert(be_u32(b) == be_u32(b.subrange(0, 4)));
    assert(b.subrange(6, 10) =~= be_bytes(job_word(job_id)));
    assert(b.subrange(CONTROL_HEADER_LEN as int, b.len() as int) =~= params_bytes(ps));
    lemma_parse_params_from(ps, 0);
    assert(ps.subrange(0, ps.len() as int) =~= ps);
    assert(ps.subrange(0, 0) =~= Seq::<(Seq<char>, Seq<char>)>::empty());
}

/// Every well-formed packet that fits the wire, with sendable parameters,
/// decodes from its own bytes to itself.
pub proof fn lemma_packet_round_trip(p: Packet)
    requires
        p.wf(),
        p.fits(),
        p matches Packet::Control(c) ==> sendable_params(c.params.pairs()),
    ensures
        decode_packet(p.spec_bytes()) == Ok::<PacketView, DecodeError>(p.view()),
{
    reveal(Packet::spec_bytes);
    match p {
        Packet::Control(c) => lemma_control_round_trip(c.control_packet_type, c.job_id, c.params.pairs()),
        Packet::Data(d) => lemma_data_round_trip(d.job_id, d.packet_number, d.data@),
    }
}

/// Why a transfer or sync request was refused.
#[derive(Clone, Copy, Debug, PartialEq, Eq, Structural)]
pub enum TransferDenyReason {
    FileNotFound,
    FileWriteLock,
    FileReadLock,
}

pub open spec fn reason_name(r: TransferDenyReason) -> Seq<char> {
    match r {
        TransferDenyReason::FileNotFound => "FileNotFound"@,
        TransferDenyReason::FileWriteLock => "FileWriteLock"@,
        TransferDenyReason::FileReadLock => "FileReadLock"@,
    }
}

impl TransferDenyReason {
    /// The reason with this name; `None` for any other text.
    pub fn from_string(reason: &str) -> (r: Option<TransferDenyReason>)
        ensures
            r matches Some(x) ==> reason_name(x) == reason@,
            r is None ==> reason@ != reason_name(TransferDenyReason::FileNotFound) && reason@
                != reason_name(TransferDenyReason::FileWriteLock) && reason@ != reason_name(
                TransferDenyReason::FileReadLock,
            ),
    {
        if text_eq(reason, "FileNotFound") {
            Some(TransferDenyReason::FileNotFound)
        } else if text_eq(reason, "FileWriteLock") {
            Some(TransferDenyReason::FileWriteLock)
        } else if text_eq(reason, "FileReadLock") {
            Some(TransferDenyReason::FileReadLock)
        } else {
            None
        }
    }

    pub fn to_string(&self) -> (r: String)
        ensures
            r@ == reason_name(*self),
    {
        match self {
            TransferDenyReason::FileNotFound => "FileNotFound".to_owned(),
            TransferDenyReason::FileWriteLock => "FileWriteLock".to_owned(),
            TransferDenyReason::FileReadLock => "FileReadLock".to_owned(),
        }
    }
}

/// A copy of the parameters, entry for entry.
pub fn copy_params(params: &StrMap<String>) -> (r: StrMap<String>)
    ensures
        r.pairs() == params.pairs(),
{
    let mut entries: Vec<(String, String)> = Vec::new();
    let mut i: usize = 0;
    while i < params.entries.len()
        invariant
            0 <= i <= params.entries@.len(),
            entries@.map_values(|e: (String, String)| (e.0@, e.1@)) == params.pairs().subrange(0, i as int),
        decreases params.entries@.len() - i,
    {
        let k = params.entries[i].0.clone();
        let v = params.entries[i].1.clone();
        assert(k@ == params.pairs()[i as int].0 && v@ == params.pairs()[i as int].1);
        let ghost before = entries@;
        entries.push((k, v));
        assert(entries@.map_values(|e: (String, String)| (e.0@, e.1@)) =~= before.map_values(
            |e: (String, String)| (e.0@, e.1@),
        ).push(params.pairs()[i as int]));
        i = i + 1;
        assert(entries@.map_values(|e: (String, String)| (e.0@, e.1@)) =~= params.pairs().subrange(0, i as int));
    }
    assert(params.pairs().subrange(0, i as int) =~= params.pairs());
    StrMap { entries }
}

/// A copy of a packet.
pub fn duplicate_packet(packet: &Packet) -> (r: Packet)
    requires
        packet.wf(),
    ensures
        r.wf(),
        r.view() == packet.view(),
        r.spec_bytes() == packet.spec_bytes(),
{
    reveal(Packet::spec_bytes);
    match packet {
        Packet::Control(c) => Packet::Control(
            ControlPacket {
                packet_type: PacketType::Control,
                control_packet_type: c.control_packet_type,
                job_id: c.job_id,
                params: copy_params(&c.params),
            },
        ),
        Packet::Data(d) => Packet::Data(
            DataPacket::new(d.job_id, vstd::slice::slice_to_vec(d.data.as_slice()), d.packet_number),
        ),
    }
}

} // verus!
