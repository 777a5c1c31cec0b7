//! The TDS packet framer.
//!
//! A logical message is carried as one or more packets, each with a fixed
//! eight-byte header: type, status, big-endian total length, server process
//! id, packet id and window. The framer splits an outbound payload into
//! chunks no larger than the negotiated packet size, setting the
//! end-of-message status bit only on the final chunk, and reassembles an
//! inbound chunk sequence back into the contiguous payload, rejecting
//! inconsistent lengths and out-of-sequence packet ids.

use vstd::prelude::*;
use crate::wire::{u16_be, u16_of_be, put_u16_be, get_u16_be, lemma_u16_be_bytes};
use crate::TdsError;

verus! {

/// Bytes of header in front of every packet payload.
pub const HEADER_LEN: usize = 8;

/// Status bit marking the final packet of a logical message.
pub const STATUS_END_OF_MESSAGE: u8 = 0x01;

/// One TDS packet: the header fields that are not derived, plus the payload.
/// The wire length field is always `HEADER_LEN + payload.len()`.
pub struct Packet {
    /// Packet type tag (e.g. SQL batch, RPC, tabular result).
    pub ptype: u8,
    /// Status bits; bit 0 is end-of-message.
    pub status: u8,
    /// Server process id echoed in the header; zero when unknown.
    pub spid: u16,
    /// Sequence number of this packet within its message, wrapping at 255.
    pub pkt_id: u8,
    /// Window field, unused by the protocol and sent as zero.
    pub window: u8,
    /// The chunk of message payload this packet carries.
    pub payload: Vec<u8>,
}

/// Mathematical model of a packet.
pub ghost struct PacketModel {
    pub ptype: u8,
    pub status: u8,
    pub spid: u16,
    pub pkt_id: u8,
    pub window: u8,
    pub payload: Seq<u8>,
}

impl View for Packet {
    type V = PacketModel;

    open spec fn view(&self) -> PacketModel {
        PacketModel {
            ptype: self.ptype,
            status: self.status,
            spid: self.spid,
            pkt_id: self.pkt_id,
            window: self.window,
            payload: self.payload@,
        }
    }
}

/// The models of a sequence of packets.
pub open spec fn packet_views(s: Seq<Packet>) -> Seq<PacketModel> {
    s.map_values(|p: Packet| p@)
}

/// A packet whose wire length field fits in its sixteen bits.
pub open spec fn packet_wf(p: PacketModel) -> bool {
    p.payload.len() + HEADER_LEN <= 0xFFFF
}

/// The exact wire bytes of a packet: the eight header bytes followed by the
/// payload.
pub open spec fn packet_bytes(p: PacketModel) -> Seq<u8> {
    seq![p.ptype, p.status]
        + u16_be((p.payload.len() + HEADER_LEN) as u16)
        + u16_be(p.spid)
        + seq![p.pkt_id, p.window]
        + p.payload
}

/// The packet id that follows `id` in sequence.
pub open spec fn next_packet_id(id: u8) -> u8 {
    if id == 255 { 0 } else { (id + 1) as u8 }
}

/// Splits `payload` into packets of at most `chunk` payload bytes each,
/// starting at packet id `id`: every packet but the last is full-sized with
/// a clear end-of-message bit; the last carries the remainder and the bit.
/// An empty payload still produces one (empty, final) packet.
pub open spec fn spec_split(ptype: u8, payload: Seq<u8>, chunk: int, id: u8) -> Seq<PacketModel>
    decreases payload.len(),
{
    if chunk <= 0 {
        Seq::empty()
    } else if payload.len() <= chunk {
        seq![PacketModel {
            ptype,
            status: STATUS_END_OF_MESSAGE,
            spid: 0,
            pkt_id: id,
            window: 0,
            payload,
        }]
    } else {
        seq![PacketModel {
            ptype,
            status: 0,
            spid: 0,
            pkt_id: id,
            window: 0,
            payload: payload.take(chunk),
        }] + spec_split(ptype, payload.skip(chunk), chunk, next_packet_id(id))
    }
}

/// Reassembles a packet sequence into its payload, expecting type `ptype`
/// and first packet id `id`: `None` when a packet is out of sequence, of the
/// wrong type, or when the end-of-message bit is missing or early.
pub open spec fn spec_reassemble_from(pkts: Seq<PacketModel>, ptype: u8, id: u8) -> Option<Seq<u8>>
    decreases pkts.len(),
{
    if pkts.len() == 0 {
        None
    } else if pkts[0].ptype != ptype || pkts[0].pkt_id != id {
        None
    } else if pkts[0].status & STATUS_END_OF_MESSAGE == STATUS_END_OF_MESSAGE {
        if pkts.len() == 1 {
            Some(pkts[0].payload)
        } else {
            None
        }
    } else {
        match spec_reassemble_from(pkts.skip(1), ptype, next_packet_id(id)) {
            Some(rest) => Some(pkts[0].payload + rest),
            None => None,
        }
    }
}

/// Reassembles a full message: the packet type is taken from the first
/// packet and the id sequence must start at 1.
pub open spec fn spec_reassemble(pkts: Seq<PacketModel>) -> Option<(u8, Seq<u8>)> {
    if pkts.len() == 0 {
        None
    } else {
        match spec_reassemble_from(pkts, pkts[0].ptype, 1) {
            Some(payload) => Some((pkts[0].ptype, payload)),
            None => None,
        }
    }
}

/// Splitting a payload and reassembling the packets yields the payload
/// again, whatever the starting id.
proof fn lemma_split_reassemble_from(ptype: u8, payload: Seq<u8>, chunk: int, id: u8)
    requires
        chunk >= 1,
    ensures
        spec_reassemble_from(spec_split(ptype, payload, chunk, id), ptype, id)
            == Some(payload),
    decreases payload.len(),
{
    let pkts = spec_split(ptype, payload, chunk, id);
    assert(STATUS_END_OF_MESSAGE & STATUS_END_OF_MESSAGE == STATUS_END_OF_MESSAGE)
        by (bit_vector);
    if payload.len() <= chunk {
        assert(pkts.len() == 1);
    } else {
        let head = pkts[0];
        let tail = spec_split(ptype, payload.skip(chunk), chunk, next_packet_id(id));
        assert(pkts == seq![head] + tail);
        assert(pkts.skip(1) =~= tail);
        lemma_split_reassemble_from(ptype, payload.skip(chunk), chunk, next_packet_id(id));
        assert(head.status == 0);
        assert(0u8 & STATUS_END_OF_MESSAGE == 0) by (bit_vector);
        assert(payload.take(chunk) + payload.skip(chunk) =~= payload);
    }
}

/// Framer round trip: splitting any payload under any packet-size limit
/// that leaves at least one payload byte per packet, then reassembling,
/// yields the original payload — zero-length payloads included.
pub proof fn lemma_framer_round_trip(ptype: u8, payload: Seq<u8>, chunk: int)
    requires
        chunk >= 1,
    ensures
        spec_reassemble(spec_split(ptype, payload, chunk, 1))
            == Some((ptype, payload)),
{
    lemma_split_reassemble_from(ptype, payload, chunk, 1);
    let pkts = spec_split(ptype, payload, chunk, 1);
    assert(pkts.len() >= 1);
    assert(pkts[0].ptype == ptype);
}

/// Splits `payload` into the packets of one logical message, at most
/// `packet_size` wire bytes each, exactly as `spec_split` describes.
pub fn split_message(ptype: u8, payload: &Vec<u8>, packet_size: usize) -> (pkts: Vec<Packet>)
    requires
        HEADER_LEN < packet_size <= 0xFFFF,
    ensures
        packet_views(pkts@) == spec_split(ptype, payload@, packet_size - HEADER_LEN, 1),
        forall|i: int| 0 <= i < pkts@.len() ==> packet_wf(#[trigger] pkts@[i]@),
{
    let chunk: usize = packet_size - HEADER_LEN;
    let ghost chunk_i: int = chunk as int;
    let mut pkts: Vec<Packet> = Vec::new();
    let mut pos: usize = 0;
    let mut id: u8 = 1;
    let n: usize = payload.len();
    proof {
        assert(payload@.skip(0) =~= payload@);
        assert(packet_views(pkts@) =~= Seq::<PacketModel>::empty());
        assert(spec_split(ptype, payload@, chunk_i, 1)
            =~= packet_views(pkts@) + spec_split(ptype, payload@.skip(0), chunk_i, 1));
    }
    while n - pos > chunk
        invariant
            HEADER_LEN < packet_size <= 0xFFFF,
            chunk == packet_size - HEADER_LEN,
            chunk_i == chunk as int,
            n == payload@.len(),
            pos <= n,
            spec_split(ptype, payload@, chunk_i, 1)
                =~= packet_views(pkts@)
                    + spec_split(ptype, payload@.skip(pos as int), chunk_i, id),
            forall|i: int| 0 <= i < pkts@.len() ==> packet_wf(#[trigger] pkts@[i]@),
        decreases n - pos,
    {
        let mut body: Vec<u8> = Vec::new();
        let mut j: usize = pos;
        while j < pos + chunk
            invariant
                pos <= j <= pos + chunk,
                pos + chunk < n,
                n == payload@.len(),
                body@ =~= payload@.subrange(pos as int, j as int),
            decreases pos + chunk - j,
        {
            body.push(payload[j]);
            j += 1;
        }
        assert(body@ =~= payload@.skip(pos as int).take(chunk_i));
        let p = Packet {
            ptype,
            status: 0,
            spid: 0,
            pkt_id: id,
            window: 0,
            payload: body,
        };
        pkts.push(p);
        proof {
            assert(packet_views(pkts@)
                =~= packet_views(pkts@.drop_last()) + seq![pkts@.last()@]);
            assert(payload@.skip(pos as int).skip(chunk_i)
                =~= payload@.skip(pos as int + chunk_i));
        }
        pos = pos + chunk;
        id = if id == 255 { 0 } else { id + 1 };
    }
    let mut body: Vec<u8> = Vec::new();
    let mut j: usize = pos;
    while j < n
        invariant
            pos <= j <= n,
            n == payload@.len(),
            body@ =~= payload@.subrange(pos as int, j as int),
        decreases n - j,
    {
        body.push(payload[j]);
        j += 1;
    }
    assert(body@ =~= payload@.skip(pos as int));
    let p = Packet {
        ptype,
        status: STATUS_END_OF_MESSAGE,
        spid: 0,
        pkt_id: id,
        window: 0,
        payload: body,
    };
    pkts.push(p);
    proof {
        assert(packet_views(pkts@)
            =~= packet_views(pkts@.drop_last()) + seq![pkts@.last()@]);
        assert(spec_split(ptype, payload@.skip(pos as int), chunk_i, id)
            =~= seq![pkts@.last()@]);
        assert(packet_views(pkts@) =~= spec_split(ptype, payload@, chunk_i, 1));
    }
    pkts
}

/// Reassembles the packets of one logical message into its payload and
/// packet type, failing with `ProtocolError` exactly when `spec_reassemble`
/// rejects the sequence.
pub fn reassemble_message(pkts: &Vec<Packet>) -> (r: Result<(u8, Vec<u8>), TdsError>)
    ensures
        match r {
            Ok((t, payload)) => spec_reassemble(packet_views(pkts@)) == Some((t, payload@)),
            Err(e) => spec_reassemble(packet_views(pkts@)) is None && e == TdsError::ProtocolError,
        },
{
    let n: usize = pkts.len();
    if n == 0 {
        return Err(TdsError::ProtocolError);
    }
    let ptype: u8 = pkts[0].ptype;
    let mut out: Vec<u8> = Vec::new();
    let mut i: usize = 0;
    let mut id: u8 = 1;
    let ghost views = packet_views(pkts@);
    proof {
        assert(views.skip(0) =~= views);
        assert forall|rest: Seq<u8>|
            spec_reassemble_from(views.skip(0), ptype, 1) == Some(rest)
            implies spec_reassemble_from(views, ptype, 1) == Some(out@ + rest) by {
            assert(out@ + rest =~= rest);
        };
    }
    loop
        invariant
            n == pkts@.len(),
            n >= 1,
            0 <= i < n,
            views == packet_views(pkts@),
            ptype == pkts@[0].ptype,
            forall|rest: Seq<u8>|
                spec_reassemble_from(views.skip(i as int), ptype, id) == Some(rest)
                    ==> spec_reassemble_from(views, ptype, 1) == Some(out@ + rest),
            spec_reassemble_from(views.skip(i as int), ptype, id) is None
                ==> spec_reassemble_from(views, ptype, 1) is None,
        decreases n - i,
    {
        proof {
            assert(views.skip(i as int).len() == n - i);
            assert(views.skip(i as int)[0] == views[i as int]);
        }
        let p = &pkts[i];
        if p.ptype != ptype || p.pkt_id != id {
            return Err(TdsError::ProtocolError);
        }
        if p.status & STATUS_END_OF_MESSAGE == STATUS_END_OF_MESSAGE {
            if i + 1 != n {
                return Err(TdsError::ProtocolError);
            }
            let mut j: usize = 0;
            let m: usize = p.payload.len();
            let ghost out0 = out@;
            while j < m
                invariant
                    j <= m,
                    m == p.payload@.len(),
                    out@ =~= out0 + p.payload@.subrange(0, j as int),
                decreases m - j,
            {
                let b = p.payload[j];
                out.push(b);
                j += 1;
            }
            proof {
                assert(p.payload@.subrange(0, m as int) =~= p.payload@);
                assert(spec_reassemble_from(views.skip(i as int), ptype, id)
                    == Some(views[i as int].payload));
            }
            return Ok((ptype, out));
        }
        if i + 1 == n {
            proof {
                let s = views.skip(i as int);
                assert(s.len() == 1);
                assert(s.skip(1).len() == 0);
                assert(spec_reassemble_from(s.skip(1), ptype, next_packet_id(id)) is None);
                assert(spec_reassemble_from(s, ptype, id) is None);
            }
            return Err(TdsError::ProtocolError);
        }
        let mut j: usize = 0;
        let m: usize = p.payload.len();
        let ghost out0 = out@;
        while j < m
            invariant
                j <= m,
                m == p.payload@.len(),
                out@ =~= out0 + p.payload@.subrange(0, j as int),
            decreases m - j,
        {
            let b = p.payload[j];
            out.push(b);
            j += 1;
        }
        proof {
            assert(p.payload@.subrange(0, m as int) =~= p.payload@);
            assert(views.skip(i as int).skip(1) =~= views.skip(i as int + 1));
            assert forall|rest: Seq<u8>|
                spec_reassemble_from(views.skip(i as int + 1), ptype, next_packet_id(id))
                    == Some(rest)
                implies spec_reassemble_from(views, ptype, 1)
                    == Some(out@ + rest) by {
                assert(spec_reassemble_from(views.skip(i as int), ptype, id)
                    == Some(views[i as int].payload + rest));
                assert(out0 + (views[i as int].payload + rest)
                    =~= (out0 + views[i as int].payload) + rest);
            };
        }
        i += 1;
        id = if id == 255 { 0 } else { id + 1 };
    }
}

/// Encodes one packet to its exact wire bytes.
pub fn encode_packet(p: &Packet) -> (out: Vec<u8>)
    requires
        packet_wf(p@),
    ensures
        out@ == packet_bytes(p@),
{
    let mut out: Vec<u8> = Vec::new();
    out.push(p.ptype);
    out.push(p.status);
    let len: u16 = (p.payload.len() + HEADER_LEN) as u16;
    put_u16_be(&mut out, len);
    put_u16_be(&mut out, p.spid);
    out.push(p.pkt_id);
    out.push(p.window);
    let ghost header = out@;
    let mut j: usize = 0;
    let m: usize = p.payload.len();
    while j < m
        invariant
            j <= m,
            m == p.payload@.len(),
            out@ =~= header + p.payload@.subrange(0, j as int),
        decreases m - j,
    {
        let b = p.payload[j];
        out.push(b);
        j += 1;
    }
    assert(out@ =~= packet_bytes(p@));
    out
}

/// Decodes one packet from its exact wire bytes: succeeds iff the buffer is
/// at least a header long and the header's declared length equals the bytes
/// actually received, and then returns exactly the packet that would encode
/// to `buf`.
pub fn decode_packet(buf: &Vec<u8>) -> (r: Result<Packet, TdsError>)
    ensures
        match r {
            Ok(p) => {
                &&& packet_wf(p@)
                &&& packet_bytes(p@) == buf@
                &&& buf@.len() >= HEADER_LEN
                &&& u16_of_be(buf@[2], buf@[3]) == buf@.len()
            },
            Err(e) => {
                &&& e == TdsError::ProtocolError
                &&& (buf@.len() < HEADER_LEN || u16_of_be(buf@[2], buf@[3]) != buf@.len())
            },
        },
{
    let n: usize = buf.len();
    if n < HEADER_LEN {
        return Err(TdsError::ProtocolError);
    }
    let declared: u16 = get_u16_be(buf, 2);
    if (declared as usize) != n {
        return Err(TdsError::ProtocolError);
    }
    let spid: u16 = get_u16_be(buf, 4);
    let mut body: Vec<u8> = Vec::new();
    let mut j: usize = HEADER_LEN;
    while j < n
        invariant
            HEADER_LEN <= j <= n,
            n == buf@.len(),
            body@ =~= buf@.subrange(HEADER_LEN as int, j as int),
        decreases n - j,
    {
        let b = buf[j];
        body.push(b);
        j += 1;
    }
    let p = Packet {
        ptype: buf[0],
        status: buf[1],
        spid,
        pkt_id: buf[6],
        window: buf[7],
        payload: body,
    };
    proof {
        lemma_u16_be_bytes(buf@[2], buf@[3]);
        lemma_u16_be_bytes(buf@[4], buf@[5]);
        assert((p.payload@.len() + HEADER_LEN) as u16 == declared);
        assert(packet_bytes(p@) =~= buf@);
    }
    Ok(p)
}

} // verus!
