//! The building blocks of RDMA: queue pairs, message boundaries and work requests.
use crate::EntityId;
use std::collections::HashMap;
use vstd::prelude::*;

verus! {

broadcast use vstd::std_specs::hash::group_hash_axioms;

/// The number of a queue pair.
pub type Qpn = u32;

/// The number of a packet within its queue pair, 24 bits wide.
pub type Psn = u32;

/// The state of a queue pair.
#[derive(Debug, Clone, Copy, PartialEq, Eq, Structural)]
pub enum QpState {
    /// Not configured.
    Reset,
    /// Configured locally.
    Init,
    /// Ready to receive.
    Rtr,
    /// Ready to send.
    Rts,
    /// Broken.
    Error,
}

impl QpState {
    /// Whether the queue pair can send.
    pub fn can_send(&self) -> (r: bool)
        ensures
            r == (*self == QpState::Rts),
    {
        match self {
            QpState::Rts => true,
            _ => false,
        }
    }

    /// Whether the queue pair can receive.
    pub fn can_recv(&self) -> (r: bool)
        ensures
            r == (*self == QpState::Rtr || *self == QpState::Rts),
    {
        match self {
            QpState::Rtr => true,
            QpState::Rts => true,
            _ => false,
        }
    }
}

/// The place of a packet in its message.
#[derive(Debug, Clone, Copy, PartialEq, Eq, Structural)]
pub enum MsgBoundary {
    /// The only packet.
    Solo,
    /// The first of several packets.
    First,
    /// Neither the first nor the last packet.
    Middle,
    /// The last of several packets.
    Last,
}

impl MsgBoundary {
    /// The two bits that stand for the place.
    pub open spec fn flags(self) -> u8 {
        match self {
            MsgBoundary::Solo => 0,
            MsgBoundary::First => 1,
            MsgBoundary::Middle => 2,
            MsgBoundary::Last => 3,
        }
    }

    /// The place that the two low bits of `flags` stand for.
    pub open spec fn of_flags(flags: u8) -> MsgBoundary {
        if flags % 4 == 0 {
            MsgBoundary::Solo
        } else if flags % 4 == 1 {
            MsgBoundary::First
        } else if flags % 4 == 2 {
            MsgBoundary::Middle
        } else {
            MsgBoundary::Last
        }
    }

    /// The place that the two low bits of `flags` stand for.
    pub fn from_flags(flags: u8) -> (b: Self)
        ensures
            b == MsgBoundary::of_flags(flags),
    {
        match flags % 4 {
            0 => MsgBoundary::Solo,
            1 => MsgBoundary::First,
            2 => MsgBoundary::Middle,
            _ => MsgBoundary::Last,
        }
    }

    /// The two bits that stand for the place.
    pub fn to_flags(self) -> (f: u8)
        ensures
            f == self.flags(),
    {
        match self {
            MsgBoundary::Solo => 0,
            MsgBoundary::First => 1,
            MsgBoundary::Middle => 2,
            MsgBoundary::Last => 3,
        }
    }
}

/// How many packet numbers there are: they are 24 bits wide.
pub const PSN_SPACE: u32 = 0x100_0000;

/// The packet number `n` after `psn`.
pub open spec fn psn_after(psn: Psn, n: int) -> Psn {
    ((psn + n) % PSN_SPACE as int) as u32
}

/// The packet number `n` after `psn`.
pub fn advance_psn(psn: Psn, n: u32) -> (r: Psn)
    ensures
        r == psn_after(psn, n as int),
        r < PSN_SPACE,
{
    ((psn as u64 + n as u64) % PSN_SPACE as u64) as u32
}

/// Decoding gives back what was encoded.
pub proof fn law_boundary_flags(b: MsgBoundary)
    ensures
        MsgBoundary::of_flags(b.flags()) == b,
{
}

/// An RDMA operation.
#[derive(Debug, Clone, Copy, PartialEq, Eq, Structural)]
pub enum RdmaOpcode {
    Send,
    SendWithImm,
    Write,
    WriteWithImm,
    ReadRequest,
    ReadResponse,
    /// An acknowledgement without payload.
    Ack,
    /// The receiver is not ready.
    RnrNak,
}

impl RdmaOpcode {
    /// The number that stands for the operation.
    pub open spec fn code(self) -> u8 {
        match self {
            RdmaOpcode::Send => 0,
            RdmaOpcode::SendWithImm => 1,
            RdmaOpcode::Write => 2,
            RdmaOpcode::WriteWithImm => 3,
            RdmaOpcode::ReadRequest => 4,
            RdmaOpcode::ReadResponse => 5,
            RdmaOpcode::Ack => 6,
            RdmaOpcode::RnrNak => 7,
        }
    }

    /// The number that stands for the operation.
    pub fn to_code(self) -> (c: u8)
        ensures
            c == self.code(),
    {
        match self {
            RdmaOpcode::Send => 0,
            RdmaOpcode::SendWithImm => 1,
            RdmaOpcode::Write => 2,
            RdmaOpcode::WriteWithImm => 3,
            RdmaOpcode::ReadRequest => 4,
            RdmaOpcode::ReadResponse => 5,
            RdmaOpcode::Ack => 6,
            RdmaOpcode::RnrNak => 7,
        }
    }

    /// Whether the operation needs nothing of the processor at the other end.
    pub fn is_one_sided(&self) -> (r: bool)
        ensures
            r == (*self == RdmaOpcode::Write || *self == RdmaOpcode::WriteWithImm || *self
                == RdmaOpcode::ReadRequest || *self == RdmaOpcode::ReadResponse),
    {
        match self {
            RdmaOpcode::Write => true,
            RdmaOpcode::WriteWithImm => true,
            RdmaOpcode::ReadRequest => true,
            RdmaOpcode::ReadResponse => true,
            _ => false,
        }
    }

    /// Whether the receiver must have posted a buffer.
    pub fn needs_recv_wqe(&self) -> (r: bool)
        ensures
            r == (*self == RdmaOpcode::Send || *self == RdmaOpcode::SendWithImm),
    {
        match self {
            RdmaOpcode::Send => true,
            RdmaOpcode::SendWithImm => true,
            _ => false,
        }
    }
}

/// A work request.
#[derive(Debug, Clone, Copy)]
pub struct Wqe {
    pub qpn: Qpn,
    pub opcode: RdmaOpcode,
    pub remote_id: EntityId,
    pub remote_addr: u64,
    pub local_addr: u64,
    /// The size of the message in bytes.
    pub length: u64,
    pub posted_ns: u64,
    pub doorbell_rung: bool,
}

/// How an operation ended.
#[derive(Debug, Clone, Copy, PartialEq, Eq, Structural)]
pub enum CqStatus {
    Success,
    /// The receiver was not ready.
    RnrRetry,
    Timeout,
    LocalProtection,
}

/// The report of a completed operation.
#[derive(Debug, Clone, Copy)]
pub struct Cqe {
    pub qpn: Qpn,
    pub opcode: RdmaOpcode,
    pub completed_ns: u64,
    pub status: CqStatus,
}

/// A queue pair.
#[derive(Debug, Clone)]
pub struct QueuePair {
    pub qpn: Qpn,
    pub remote_qpn: Qpn,
    pub state: QpState,
    /// The number of the next packet to send.
    pub next_psn: Psn,
    /// The number of the next packet to receive.
    pub e_psn: Psn,
    pub remote_id: EntityId,
    pub created_ns: u64,
    pub send_queue: Vec<Wqe>,
    /// The posted receive buffers.
    pub recv_queue: Vec<Wqe>,
    pub pending_reads: HashMap<Psn, Wqe>,
    pub reassembly: HashMap<Psn, Vec<u8>>,
    pub current_msg_first_psn: Option<Psn>,
    pub rnr_naks_sent: u64,
    pub rnr_naks_received: u64,
    pub retransmissions: u64,
}

/// What a queue pair holds.
#[verifier::ext_equal]
pub struct QpView {
    pub qpn: Qpn,
    pub remote_qpn: Qpn,
    pub state: QpState,
    pub next_psn: Psn,
    pub e_psn: Psn,
    pub remote_id: EntityId,
    pub created_ns: u64,
    pub send_queue: Seq<Wqe>,
    pub recv_queue: Seq<Wqe>,
    pub pending_reads: Map<Psn, Wqe>,
    pub reassembly: Map<Psn, Vec<u8>>,
    pub current_msg_first_psn: Option<Psn>,
    pub rnr_naks_sent: u64,
    pub rnr_naks_received: u64,
    pub retransmissions: u64,
}

impl View for QueuePair {
    type V = QpView;

    open spec fn view(&self) -> QpView {
        QpView {
            qpn: self.qpn,
            remote_qpn: self.remote_qpn,
            state: self.state,
            next_psn: self.next_psn,
            e_psn: self.e_psn,
            remote_id: self.remote_id,
            created_ns: self.created_ns,
            send_queue: self.send_queue@,
            recv_queue: self.recv_queue@,
            pending_reads: self.pending_reads@,
            reassembly: self.reassembly@,
            current_msg_first_psn: self.current_msg_first_psn,
            rnr_naks_sent: self.rnr_naks_sent,
            rnr_naks_received: self.rnr_naks_received,
            retransmissions: self.retransmissions,
        }
    }
}

/// A queue pair that is not configured.
pub open spec fn fresh_qp(qpn: Qpn, remote_qpn: Qpn, remote_id: EntityId, now: u64) -> QpView {
    QpView {
        qpn,
        remote_qpn,
        state: QpState::Reset,
        next_psn: 0,
        e_psn: 0,
        remote_id,
        created_ns: now,
        send_queue: Seq::empty(),
        recv_queue: Seq::empty(),
        pending_reads: Map::empty(),
        reassembly: Map::empty(),
        current_msg_first_psn: None,
        rnr_naks_sent: 0,
        rnr_naks_received: 0,
        retransmissions: 0,
    }
}

/// A queue pair may go from one state to another: forward through the states one by one,
/// from the second state to itself, and from anywhere to the first or the broken state.
pub open spec fn may_go(from: QpState, to: QpState) -> bool {
    ||| from == QpState::Reset && to == QpState::Init
    ||| from == QpState::Init && to == QpState::Init
    ||| from == QpState::Init && to == QpState::Rtr
    ||| from == QpState::Rtr && to == QpState::Rts
    ||| to == QpState::Error
    ||| to == QpState::Reset
}

impl QpView {
    /// Some receive buffer has not been used.
    pub open spec fn can_take_message(self) -> bool {
        exists|i: int|
            0 <= i < self.recv_queue.len() && !(#[trigger] self.recv_queue[i]).doorbell_rung
    }
}

impl QueuePair {
    /// A queue pair that is not configured.
    pub fn new(qpn: Qpn, remote_qpn: Qpn, remote_id: EntityId, now: u64) -> (q: Self)
        ensures
            q@ == fresh_qp(qpn, remote_qpn, remote_id, now),
    {
        QueuePair {
            qpn,
            remote_qpn,
            state: QpState::Reset,
            next_psn: 0,
            e_psn: 0,
            remote_id,
            created_ns: now,
            send_queue: Vec::new(),
            recv_queue: Vec::new(),
            pending_reads: HashMap::new(),
            reassembly: HashMap::new(),
            current_msg_first_psn: None,
            rnr_naks_sent: 0,
            rnr_naks_received: 0,
            retransmissions: 0,
        }
    }

    /// Goes to a new state if that is allowed, and says whether it was.
    pub fn transition(&mut self, new_state: QpState) -> (r: bool)
        ensures
            r == may_go(old(self)@.state, new_state),
            final(self)@ == if r {
                QpView { state: new_state, ..old(self)@ }
            } else {
                old(self)@
            },
    {
        let valid: bool = match (self.state, new_state) {
            (QpState::Reset, QpState::Init) => true,
            (QpState::Init, QpState::Init) => true,
            (QpState::Init, QpState::Rtr) => true,
            (QpState::Rtr, QpState::Rts) => true,
            (_, QpState::Error) => true,
            (_, QpState::Reset) => true,
            _ => false,
        };
        if valid {
            self.state = new_state;
        }
        valid
    }

    /// Hands out the number of the next packet; the numbers wrap around.
    pub fn alloc_psn(&mut self) -> (psn: Psn)
        ensures
            psn == old(self)@.next_psn,
            final(self)@ == (QpView {
                next_psn: psn_after(old(self)@.next_psn, 1),
                ..old(self)@
            }),
    {
        let psn: Psn = self.next_psn;
        self.next_psn = advance_psn(psn, 1);
        psn
    }

    /// Whether some receive buffer has not been used.
    pub fn has_recv_wqe(&self) -> (r: bool)
        ensures
            r == self@.can_take_message(),
    {
        let mut i: usize = 0;
        while i < self.recv_queue.len()
            invariant
                i <= self.recv_queue@.len(),
                forall|k: int| 0 <= k < i ==> (#[trigger] self.recv_queue@[k]).doorbell_rung,
            decreases self.recv_queue@.len() - i,
        {
            if !self.recv_queue[i].doorbell_rung {
                assert(!self@.recv_queue[i as int].doorbell_rung);
                return true;
            }
            i = i + 1;
        }
        false
    }
}

/// A queue pair gets ready to send only by way of the states before it.
pub proof fn law_ready_to_send_is_last(from: QpState)
    requires
        may_go(from, QpState::Rts),
    ensures
        from == QpState::Rtr,
{
}

} // verus!
