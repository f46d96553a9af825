//! Packets.
//!
//! A packet carries what every protocol needs; what only one protocol knows
//! (acknowledgement bitmaps, utilisation reports) is encoded in `payload`.
use crate::EntityId;
use vstd::prelude::*;

verus! {

/// The size of a data packet in bytes.
pub const MTU_BYTES: u32 = 1024;

/// The size of a control packet in bytes.
pub const CONTROL_BYTES: u32 = 64;

pub type PacketId = u64;

pub type FlowId = u32;

pub type SeqNum = u32;

/// The kind of a packet.
#[derive(Debug, Clone, Copy, PartialEq, Eq, Structural)]
pub enum PacketKind {
    /// A data packet.
    Data,
    /// A control packet; each protocol gives the number its meaning.
    Control(u8),
}

/// A network packet.
#[derive(Debug, Clone)]
pub struct Packet {
    pub id: PacketId,
    pub kind: PacketKind,
    pub flow_id: FlowId,
    pub seq: SeqNum,
    pub size: u32,
    pub src: EntityId,
    pub dst: EntityId,
    pub ecn: bool,
    pub routing_tag: u8,
    pub payload: Vec<u8>,
    pub depart_time: u64,
    pub trace_id: PacketId,
    /// RDMA queue pair number; zero for other packets.
    pub qpn: u32,
    /// RDMA packet sequence number.
    pub psn: u32,
    /// Encoded message boundary.
    pub msg_flags: u8,
    /// Encoded RDMA operation; zero for other packets.
    pub rdma_opcode: u8,
}

/// The contents of a packet.
#[verifier::ext_equal]
pub struct PacketView {
    pub id: PacketId,
    pub kind: PacketKind,
    pub flow_id: FlowId,
    pub seq: SeqNum,
    pub size: u32,
    pub src: EntityId,
    pub dst: EntityId,
    pub ecn: bool,
    pub routing_tag: u8,
    pub payload: Seq<u8>,
    pub depart_time: u64,
    pub trace_id: PacketId,
    pub qpn: u32,
    pub psn: u32,
    pub msg_flags: u8,
    pub rdma_opcode: u8,
}

impl View for Packet {
    type V = PacketView;

    open spec fn view(&self) -> PacketView {
        PacketView {
            id: self.id,
            kind: self.kind,
            flow_id: self.flow_id,
            seq: self.seq,
            size: self.size,
            src: self.src,
            dst: self.dst,
            ecn: self.ecn,
            routing_tag: self.routing_tag,
            payload: self.payload@,
            depart_time: self.depart_time,
            trace_id: self.trace_id,
            qpn: self.qpn,
            psn: self.psn,
            msg_flags: self.msg_flags,
            rdma_opcode: self.rdma_opcode,
        }
    }
}

/// A plain data packet of full size.
pub open spec fn data_packet(
    id: PacketId,
    trace_id: PacketId,
    flow: FlowId,
    seq: SeqNum,
    src: EntityId,
    dst: EntityId,
    depart_time: u64,
) -> PacketView {
    PacketView {
        id,
        trace_id,
        kind: PacketKind::Data,
        flow_id: flow,
        seq,
        size: MTU_BYTES,
        src,
        dst,
        ecn: false,
        routing_tag: 0,
        payload: Seq::empty(),
        depart_time,
        qpn: 0,
        psn: 0,
        msg_flags: 0,
        rdma_opcode: 0,
    }
}

/// A control packet.
pub open spec fn control_packet(
    id: PacketId,
    trace_id: PacketId,
    flow: FlowId,
    seq: SeqNum,
    src: EntityId,
    dst: EntityId,
    ecn: bool,
    control_type: u8,
    payload: Seq<u8>,
    now: u64,
) -> PacketView {
    PacketView {
        id,
        trace_id,
        kind: PacketKind::Control(control_type),
        flow_id: flow,
        seq,
        size: CONTROL_BYTES,
        src,
        dst,
        ecn,
        routing_tag: 0,
        payload,
        depart_time: now,
        qpn: 0,
        psn: 0,
        msg_flags: 0,
        rdma_opcode: 0,
    }
}

/// An RDMA data packet of full size.
pub open spec fn rdma_packet(
    id: PacketId,
    trace_id: PacketId,
    qpn: u32,
    psn: u32,
    msg_flags: u8,
    opcode: u8,
    src: EntityId,
    dst: EntityId,
    depart_time: u64,
) -> PacketView {
    PacketView {
        qpn,
        psn,
        msg_flags,
        rdma_opcode: opcode,
        ..data_packet(id, trace_id, qpn, psn, src, dst, depart_time)
    }
}

/// The views of a sequence of packets.
pub open spec fn packet_views(packets: Seq<Packet>) -> Seq<PacketView> {
    packets.map_values(|p: Packet| p@)
}

impl Packet {
    /// A plain data packet of full size.
    pub fn data(
        id: PacketId,
        trace_id: PacketId,
        flow: FlowId,
        seq: SeqNum,
        src: EntityId,
        dst: EntityId,
        depart_time: u64,
    ) -> (p: Self)
        ensures
            p@ == data_packet(id, trace_id, flow, seq, src, dst, depart_time),
    {
        let p = Packet {
            id,
            trace_id,
            kind: PacketKind::Data,
            flow_id: flow,
            seq,
            size: MTU_BYTES,
            src,
            dst,
            ecn: false,
            routing_tag: 0,
            payload: Vec::new(),
            depart_time,
            qpn: 0,
            psn: 0,
            msg_flags: 0,
            rdma_opcode: 0,
        };
        assert(p@.payload =~= Seq::empty());
        p
    }

    /// A control packet.
    pub fn control(
        id: PacketId,
        trace_id: PacketId,
        flow: FlowId,
        seq: SeqNum,
        src: EntityId,
        dst: EntityId,
        ecn: bool,
        control_type: u8,
        payload: Vec<u8>,
        now: u64,
    ) -> (p: Self)
        ensures
            p@ == control_packet(
                id,
                trace_id,
                flow,
                seq,
                src,
                dst,
                ecn,
                control_type,
                payload@,
                now,
            ),
    {
        Packet {
            id,
            trace_id,
            kind: PacketKind::Control(control_type),
            flow_id: flow,
            seq,
            size: CONTROL_BYTES,
            src,
            dst,
            ecn,
            routing_tag: 0,
            payload,
            depart_time: now,
            qpn: 0,
            psn: 0,
            msg_flags: 0,
            rdma_opcode: 0,
        }
    }

    /// An RDMA data packet of full size.
    pub fn rdma_data(
        id: PacketId,
        trace_id: PacketId,
        qpn: u32,
        psn: u32,
        msg_flags: u8,
        opcode: u8,
        src: EntityId,
        dst: EntityId,
        depart_time: u64,
    ) -> (p: Self)
        ensures
            p@ == rdma_packet(id, trace_id, qpn, psn, msg_flags, opcode, src, dst, depart_time),
    {
        let mut p = Packet::data(id, trace_id, qpn, psn, src, dst, depart_time);
        p.qpn = qpn;
        p.psn = psn;
        p.msg_flags = msg_flags;
        p.rdma_opcode = opcode;
        p
    }
}

} // verus!
