//! A stateful deframer: bytes go in as they arrive, whole packets come out.
use vstd::prelude::*;
use crate::packets::{
    decode_packet, deserialize_packet, get_packet_length, lemma_packet_round_trip, sendable_params,
    DecodeError, Packet, PacketView,
};
use crate::wire::be_u32;

verus! {

/// What deframing yields: the packets, the bytes they took, and the error
/// that stopped it, if one did.
pub struct Deframed {
    pub packets: Seq<PacketView>,
    pub consumed: nat,
    pub error: Option<DecodeError>,
}

/// The packets at the front of `buf`, at most `max` of them. It stops at
/// the first frame that is not yet whole, and fails on a length prefix below
/// five or on a frame that does not decode.
pub open spec fn deframe(buf: Seq<u8>, max: Option<nat>) -> Deframed
    decreases buf.len(),
{
    if max == Some(0nat) || buf.len() < 4 {
        Deframed { packets: Seq::empty(), consumed: 0, error: None }
    } else {
        let n = be_u32(buf);
        if n < 5 {
            Deframed { packets: Seq::empty(), consumed: 0, error: Some(DecodeError::BadLength) }
        } else if n > buf.len() {
            Deframed { packets: Seq::empty(), consumed: 0, error: None }
        } else {
            match decode_packet(buf.subrange(0, n as int)) {
                Err(e) => Deframed { packets: Seq::empty(), consumed: 0, error: Some(e) },
                Ok(p) => {
                    let next_max = match max {
                        Some(m) => Some((m - 1) as nat),
                        None => None,
                    };
                    let rest = deframe(buf.subrange(n as int, buf.len() as int), next_max);
                    Deframed {
                        packets: seq![p] + rest.packets,
                        consumed: n + rest.consumed,
                        error: rest.error,
                    }
                },
            }
        }
    }
}

/// A packet limit as a spec value.
pub open spec fn limit(max: Option<usize>) -> Option<nat> {
    match max {
        Some(m) => Some(m as nat),
        None => None,
    }
}

/// What is left of a packet limit after `used` packets.
pub open spec fn remaining_limit(max: Option<nat>, used: nat) -> Option<nat> {
    match max {
        Some(m) => Some((m - used) as nat),
        None => None,
    }
}

pub open spec fn views(ps: Seq<Packet>) -> Seq<PacketView> {
    ps.map_values(|p: Packet| p.view())
}

pub struct PacketReader {
    pub packets_processed: usize,
    pub buffer: Vec<u8>,
}

impl PacketReader {
    pub fn new() -> (r: PacketReader)
        ensures
            r.buffer@.len() == 0,
            r.packets_processed == 0,
    {
        PacketReader { packets_processed: 0, buffer: Vec::new() }
    }

    /// Takes in `bytes` just read from the stream and hands out the packets
    /// that are now whole, at most `max_packets` of them; the rest stays
    /// buffered for the next call. A framing error is fatal to the stream.
    pub fn read(&mut self, bytes: &[u8], max_packets: Option<usize>) -> (r: Result<Vec<Packet>, DecodeError>)
        ensures
            ({
                let all = old(self).buffer@ + bytes@;
                let out = deframe(all, limit(max_packets));
                match r {
                    Ok(ps) => out.error is None && views(ps@) == out.packets
                        && (forall|i: int| 0 <= i < ps@.len() ==> (#[trigger] ps@[i]).wf())
                        && final(self).buffer@ == all.subrange(out.consumed as int, all.len() as int),
                    Err(e) => out.error == Some(e),
                }
            }),
    {
        let ghost all = self.buffer@ + bytes@;
        let ghost max: Option<nat> = limit(max_packets);
        crate::wire::append_bytes(&mut self.buffer, bytes);
        let n = self.buffer.len();
        let mut pos: usize = 0;
        let mut packets: Vec<Packet> = Vec::new();
        assert(all.subrange(0, n as int) =~= all);
        assert(views(packets@) + deframe(all, max).packets =~= deframe(all, max).packets);
        assert(remaining_limit(max, 0) == max);
        loop
            invariant
                all == old(self).buffer@ + bytes@,
                self.buffer@ == all,
                n == all.len(),
                0 <= pos <= n,
                max == limit(max_packets),
                max_packets matches Some(m) ==> packets@.len() <= m,
                forall|i: int| 0 <= i < packets@.len() ==> (#[trigger] packets@[i]).wf(),
                ({
                    let rest = deframe(all.subrange(pos as int, n as int), remaining_limit(max, packets@.len()));
                    deframe(all, max) == Deframed {
                        packets: views(packets@) + rest.packets,
                        consumed: (pos + rest.consumed) as nat,
                        error: rest.error,
                    }
                }),
            ensures
                deframe(all.subrange(pos as int, n as int), remaining_limit(max, packets@.len()))
                    == (Deframed { packets: Seq::empty(), consumed: 0, error: None }),
            decreases n - pos,
        {
            let ghost left = remaining_limit(max, packets@.len());
            let ghost s = all.subrange(pos as int, n as int);
            let full = match max_packets {
                Some(m) => packets.len() >= m,
                None => false,
            };
            if full {
                assert(left == Some(0nat));
                assert(deframe(s, left) == Deframed { packets: Seq::empty(), consumed: 0, error: None });
                break;
            }
            assert(left != Some(0nat));
            if n - pos < 4 {
                assert(deframe(s, left) == Deframed { packets: Seq::empty(), consumed: 0, error: None });
                break;
            }
            let rest_slice = vstd::slice::slice_subrange(self.buffer.as_slice(), pos, n);
            let len = get_packet_length(rest_slice) as usize;
            assert(len == be_u32(s));
            if len < 5 {
                assert(deframe(s, left).error == Some(DecodeError::BadLength));
                return Err(DecodeError::BadLength);
            }
            if len > n - pos {
                assert(deframe(s, left) == Deframed { packets: Seq::empty(), consumed: 0, error: None });
                break;
            }
            let frame = vstd::slice::slice_subrange(self.buffer.as_slice(), pos, pos + len);
            assert(frame@ == s.subrange(0, len as int));
            match deserialize_packet(frame) {
                Err(e) => {
                    assert(deframe(s, left).error == Some(e));
                    return Err(e);
                },
                Ok(p) => {
                    let ghost tail = all.subrange(pos + len, n as int);
                    assert(s.subrange(len as int, s.len() as int) =~= tail);
                    let ghost before = packets@;
                    let ghost next = remaining_limit(max, (before.len() + 1) as nat);
                    assert(next == match left {
                        Some(m) => Some((m - 1) as nat),
                        None => None,
                    });
                    let ghost r2 = deframe(tail, next);
                    assert(deframe(s, left) == Deframed {
                        packets: seq![p.view()] + r2.packets,
                        consumed: (len + r2.consumed) as nat,
                        error: r2.error,
                    });
                    packets.push(p);
                    assert(views(packets@) =~= views(before) + seq![p.view()]);
                    assert(views(before) + (seq![p.view()] + r2.packets) =~= views(packets@) + r2.packets);
                    pos = pos + len;
                    self.packets_processed = if self.packets_processed < usize::MAX {
                        self.packets_processed + 1
                    } else {
                        self.packets_processed
                    };
                },
            }
        }
        assert(views(packets@) + Seq::<PacketView>::empty() =~= views(packets@));
        let remaining = vstd::slice::slice_to_vec(vstd::slice::slice_subrange(self.buffer.as_slice(), pos, n));
        self.buffer = remaining;
        Ok(packets)
    }
}

/// Fewer than four bytes into an empty reader give no packet and no error.
pub proof fn lemma_short_input_yields_nothing(bytes: Seq<u8>, max: Option<nat>)
    requires
        bytes.len() < 4,
    ensures
        deframe(Seq::<u8>::empty() + bytes, max) == (Deframed { packets: Seq::empty(), consumed: 0, error: None }),
{
    assert(Seq::<u8>::empty() + bytes =~= bytes);
}

/// The bytes of packets sent one after the other.
pub open spec fn stream_bytes(ps: Seq<Packet>) -> Seq<u8>
    decreases ps.len(),
{
    if ps.len() == 0 {
        Seq::empty()
    } else {
        stream_bytes(ps.drop_last()) + ps.last().spec_bytes()
    }
}

/// Chunks laid end to end.
pub open spec fn flatten(chunks: Seq<Seq<u8>>) -> Seq<u8>
    decreases chunks.len(),
{
    if chunks.len() == 0 {
        Seq::empty()
    } else {
        chunks[0] + flatten(chunks.drop_first())
    }
}

/// What a reader that starts with `buf` hands out when the chunks arrive
/// one by one, each taken in by one unlimited read.
pub open spec fn feed(buf: Seq<u8>, chunks: Seq<Seq<u8>>) -> Result<Seq<PacketView>, DecodeError>
    decreases chunks.len(),
{
    if chunks.len() == 0 {
        Ok(Seq::empty())
    } else {
        let all = buf + chunks[0];
        let d = deframe(all, None);
        match d.error {
            Some(e) => Err(e),
            None => match feed(all.subrange(d.consumed as int, all.len() as int), chunks.drop_first()) {
                Ok(rest) => Ok(d.packets + rest),
                Err(e) => Err(e),
            },
        }
    }
}

/// A packet that goes through the wire unchanged.
pub open spec fn sendable(p: Packet) -> bool {
    &&& p.wf()
    &&& p.fits()
    &&& p matches Packet::Control(c) ==> sendable_params(c.params.pairs())
}

/// Where packet `i` starts in the stream.
pub open spec fn boundary(ps: Seq<Packet>, i: int) -> int {
    stream_bytes(ps.subrange(0, i)).len() as int
}

/// The first packet from `i` on that does not end by byte `m`.
pub open spec fn complete_upto(ps: Seq<Packet>, i: int, m: int) -> int
    decreases ps.len() - i,
{
    if 0 <= i < ps.len() && boundary(ps, i + 1) <= m {
        complete_upto(ps, i + 1, m)
    } else {
        i
    }
}

proof fn lemma_stream_step(ps: Seq<Packet>, k: int)
    requires
        0 <= k < ps.len(),
    ensures
        stream_bytes(ps.subrange(0, k + 1)) == stream_bytes(ps.subrange(0, k)) + ps[k].spec_bytes(),
{
    assert(ps.subrange(0, k + 1).drop_last() =~= ps.subrange(0, k));
    assert(ps.subrange(0, k + 1).last() == ps[k]);
}

proof fn lemma_stream_prefix(ps: Seq<Packet>, k: int)
    requires
        0 <= k <= ps.len(),
    ensures
        stream_bytes(ps.subrange(0, k)).len() <= stream_bytes(ps).len(),
        stream_bytes(ps).subrange(0, stream_bytes(ps.subrange(0, k)).len() as int) == stream_bytes(
            ps.subrange(0, k),
        ),
    decreases ps.len() - k,
{
    let all = stream_bytes(ps);
    if k == ps.len() {
        assert(ps.subrange(0, k) =~= ps);
        assert(all.subrange(0, all.len() as int) =~= all);
    } else {
        lemma_stream_prefix(ps, k + 1);
        lemma_stream_step(ps, k);
        let a = stream_bytes(ps.subrange(0, k));
        let b = stream_bytes(ps.subrange(0, k + 1));
        assert forall|x: int| 0 <= x < a.len() implies all.subrange(0, a.len() as int)[x] == a[x] by {
            assert(all.subrange(0, b.len() as int)[x] == b[x]);
        }
        assert(all.subrange(0, a.len() as int) =~= a);
    }
}

/// Packet `i` occupies the stream from its boundary to the next.
proof fn lemma_packet_in_stream(ps: Seq<Packet>, i: int)
    requires
        0 <= i < ps.len(),
        sendable(ps[i]),
    ensures
        boundary(ps, i + 1) == boundary(ps, i) + ps[i].spec_bytes().len(),
        boundary(ps, i + 1) <= stream_bytes(ps).len(),
        stream_bytes(ps).subrange(boundary(ps, i), boundary(ps, i + 1)) == ps[i].spec_bytes(),
        ps[i].spec_bytes().len() >= 5,
        be_u32(ps[i].spec_bytes()) == ps[i].spec_bytes().len(),
        decode_packet(ps[i].spec_bytes()) == Ok::<PacketView, DecodeError>(ps[i].view()),
{
    lemma_stream_step(ps, i);
    lemma_stream_prefix(ps, i + 1);
    lemma_packet_round_trip(ps[i]);
    lemma_decoded_length(ps[i].spec_bytes());
    let all = stream_bytes(ps);
    let a = stream_bytes(ps.subrange(0, i));
    let b = stream_bytes(ps.subrange(0, i + 1));
    let pb = ps[i].spec_bytes();
    assert forall|x: int| 0 <= x < pb.len() implies all.subrange(a.len() as int, b.len() as int)[x] == pb[x] by {
        assert(all.subrange(0, b.len() as int)[a.len() + x] == b[a.len() + x]);
    }
    assert(all.subrange(a.len() as int, b.len() as int) =~= pb);
}

proof fn lemma_boundaries_grow(ps: Seq<Packet>, i: int, j: int)
    requires
        0 <= i <= j <= ps.len(),
        forall|k: int| 0 <= k < ps.len() ==> sendable(#[trigger] ps[k]),
    ensures
        boundary(ps, i) <= boundary(ps, j),
        boundary(ps, j) <= stream_bytes(ps).len(),
    decreases j - i,
{
    if i < j {
        lemma_packet_in_stream(ps, j - 1);
        lemma_boundaries_grow(ps, i, j - 1);
    } else {
        if j < ps.len() {
            lemma_packet_in_stream(ps, j);
        } else {
            assert(ps.subrange(0, j) =~= ps);
        }
    }
}

/// Deframing a stretch of the stream that starts at a packet boundary yields
/// the packets that are whole in it, and no error.
#[verifier::rlimit(60)]
proof fn lemma_deframe_stream(ps: Seq<Packet>, i: int, m: int)
    requires
        0 <= i <= ps.len(),
        boundary(ps, i) <= m <= stream_bytes(ps).len(),
        forall|k: int| 0 <= k < ps.len() ==> sendable(#[trigger] ps[k]),
    ensures
        ({
            let j = complete_upto(ps, i, m);
            &&& i <= j <= ps.len()
            &&& boundary(ps, j) <= m
            &&& deframe(stream_bytes(ps).subrange(boundary(ps, i), m), None) == Deframed {
                packets: views(ps.subrange(i, j)),
                consumed: (boundary(ps, j) - boundary(ps, i)) as nat,
                error: None,
            }
        }),
    decreases ps.len() - i,
{
    let all = stream_bytes(ps);
    let buf = all.subrange(boundary(ps, i), m);
    if i == ps.len() {
        assert(ps.subrange(0, i) =~= ps);
        assert(buf.len() == 0);
        assert(views(ps.subrange(i, i)) =~= Seq::<PacketView>::empty());
        assert(complete_upto(ps, i, m) == i);
        assert(deframe(buf, None) == Deframed { packets: Seq::<PacketView>::empty(), consumed: 0, error: None });
    } else {
        lemma_packet_in_stream(ps, i);
        let pb = ps[i].spec_bytes();
        if boundary(ps, i + 1) <= m {
            assert(buf.subrange(0, pb.len() as int) =~= pb);
            assert(be_u32(buf) == be_u32(pb));
            lemma_deframe_stream(ps, i + 1, m);
            assert(buf.subrange(pb.len() as int, buf.len() as int) =~= all.subrange(boundary(ps, i + 1), m));
            let j = complete_upto(ps, i, m);
            assert(j == complete_upto(ps, i + 1, m));
            lemma_boundaries_grow(ps, i + 1, j);
            assert(views(ps.subrange(i, j)) =~= seq![ps[i].view()] + views(ps.subrange(i + 1, j)));
            let n = be_u32(buf);
            assert(n == pb.len());
            assert(decode_packet(buf.subrange(0, n as int)) == Ok::<PacketView, DecodeError>(ps[i].view()));
            let rest = deframe(buf.subrange(n as int, buf.len() as int), None);
            assert(rest == Deframed {
                packets: views(ps.subrange(i + 1, j)),
                consumed: (boundary(ps, j) - boundary(ps, i + 1)) as nat,
                error: None,
            });
            assert(deframe(buf, None) == Deframed {
                packets: seq![ps[i].view()] + rest.packets,
                consumed: n + rest.consumed,
                error: rest.error,
            });
        } else {
            assert(views(ps.subrange(i, i)) =~= Seq::<PacketView>::empty());
            assert(complete_upto(ps, i, m) == i);
            if buf.len() >= 4 {
                assert(buf[0] == pb[0] && buf[1] == pb[1] && buf[2] == pb[2] && buf[3] == pb[3]);
                assert(be_u32(buf) == pb.len());
            }
            assert(deframe(buf, None) == Deframed { packets: Seq::<PacketView>::empty(), consumed: 0, error: None });
        }
    }
}

proof fn lemma_feed_stream(ps: Seq<Packet>, i: int, m: int, chunks: Seq<Seq<u8>>)
    requires
        0 <= i <= ps.len(),
        boundary(ps, i) <= m <= stream_bytes(ps).len(),
        complete_upto(ps, i, m) == i,
        forall|k: int| 0 <= k < ps.len() ==> sendable(#[trigger] ps[k]),
        stream_bytes(ps).subrange(m, stream_bytes(ps).len() as int) == flatten(chunks),
    ensures
        feed(stream_bytes(ps).subrange(boundary(ps, i), m), chunks) == Ok::<Seq<PacketView>, DecodeError>(
            views(ps.subrange(i, ps.len() as int)),
        ),
    decreases chunks.len(),
{
    let all = stream_bytes(ps);
    if chunks.len() == 0 {
        assert(m == all.len());
        assert(ps.subrange(0, ps.len() as int) =~= ps);
        if i < ps.len() {
            lemma_boundaries_grow(ps, i + 1, ps.len() as int);
            lemma_complete_upto_at_least(ps, i + 1, m);
            assert(false);
        }
        assert(views(ps.subrange(i, ps.len() as int)) =~= Seq::<PacketView>::empty());
    } else {
        let c = chunks[0];
        let m1 = m + c.len();
        assert(flatten(chunks) == c + flatten(chunks.drop_first()));
        assert(all.subrange(m, all.len() as int).subrange(0, c.len() as int) =~= c);
        assert(all.subrange(m, m1) =~= all.subrange(m, all.len() as int).subrange(0, c.len() as int));
        let buf = all.subrange(boundary(ps, i), m);
        assert(buf + c =~= all.subrange(boundary(ps, i), m1));
        lemma_deframe_stream(ps, i, m1);
        let j = complete_upto(ps, i, m1);
        lemma_boundaries_grow(ps, i, j);
        assert(all.subrange(boundary(ps, i), m1).subrange(boundary(ps, j) - boundary(ps, i), m1 - boundary(ps, i))
            =~= all.subrange(boundary(ps, j), m1));
        lemma_complete_upto_fixed(ps, i, m1);
        assert(all.subrange(m1, all.len() as int) =~= flatten(chunks.drop_first())) by {
            assert(flatten(chunks) == c + flatten(chunks.drop_first()));
            assert(all.subrange(m, all.len() as int).subrange(c.len() as int, all.len() - m) =~= all.subrange(
                m1,
                all.len() as int,
            ));
        }
        lemma_feed_stream(ps, j, m1, chunks.drop_first());
        assert(views(ps.subrange(i, j)) + views(ps.subrange(j, ps.len() as int)) =~= views(
            ps.subrange(i, ps.len() as int),
        ));
    }
}

proof fn lemma_complete_upto_at_least(ps: Seq<Packet>, i: int, m: int)
    ensures
        complete_upto(ps, i, m) >= i,
    decreases ps.len() - i,
{
    if 0 <= i < ps.len() && boundary(ps, i + 1) <= m {
        lemma_complete_upto_at_least(ps, i + 1, m);
    }
}

proof fn lemma_complete_upto_fixed(ps: Seq<Packet>, i: int, m: int)
    requires
        0 <= i <= ps.len(),
    ensures
        complete_upto(ps, complete_upto(ps, i, m), m) == complete_upto(ps, i, m),
    decreases ps.len() - i,
{
    if i < ps.len() && boundary(ps, i + 1) <= m {
        lemma_complete_upto_fixed(ps, i + 1, m);
    }
}

proof fn lemma_decoded_length(b: Seq<u8>)
    requires
        decode_packet(b) is Ok,
    ensures
        b.len() >= 5,
        be_u32(b) == b.len(),
{
    reveal(decode_packet);
}

/// Whatever chunks the bytes of a run of packets arrive in, a reader that
/// starts empty hands out exactly those packets, in order.
pub proof fn lemma_stream_any_chunks(ps: Seq<Packet>, chunks: Seq<Seq<u8>>)
    requires
        forall|k: int| 0 <= k < ps.len() ==> sendable(#[trigger] ps[k]),
        flatten(chunks) == stream_bytes(ps),
    ensures
        feed(Seq::empty(), chunks) == Ok::<Seq<PacketView>, DecodeError>(views(ps)),
{
    assert(ps.subrange(0, 0) =~= Seq::<Packet>::empty());
    assert(boundary(ps, 0) == 0);
    assert(stream_bytes(ps).subrange(0, stream_bytes(ps).len() as int) =~= stream_bytes(ps));
    assert(stream_bytes(ps).subrange(0, 0) =~= Seq::<u8>::empty());
    if ps.len() > 0 {
        lemma_packet_in_stream(ps, 0);
    }
    assert(complete_upto(ps, 0, 0) == 0);
    lemma_feed_stream(ps, 0, 0, chunks);
    assert(ps.subrange(0, ps.len() as int) =~= ps);
}

} // verus!
