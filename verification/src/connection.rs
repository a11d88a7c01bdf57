//! The TCP connection state machine of the stack's one listening port:
//! LISTEN, SYN_RECEIVED, ESTABLISHED, CLOSE_WAIT, CLOSED.

use std::collections::HashMap;
use vstd::prelude::*;

use crate::checksum::lemma_raw_sum_bound;
use crate::http::{build_http_response, http_body, http_response, lemma_http_response_short};
use crate::ipv4::{ipv4_parses, ipv4_payload, Ipv4Packet};
use crate::reply::{
    build_tcp_control_packet, build_tcp_http_reply, build_tcp_syn_ack_reply,
    lemma_tcp_reply_parses_back, tcp_checksum, tcp_pseudo_packet, tcp_reply_packet,
    tcp_segment_fields,
};
use crate::tcp::{flag_bit, TcpPacket};
use crate::wire::{be_u16, be_u32};

verus! {

/// The port on which the stack accepts TCP connections (and echoes UDP).
pub const TCP_LISTEN_PORT: u16 = 8080;

/// The initial sequence number of every connection the stack accepts.
pub const INITIAL_SERVER_SEQ: u32 = 1000;

/// The state of one connection.
#[derive(Debug, Clone, Copy, PartialEq, Eq, Structural)]
pub enum TcpState {
    SynReceived,
    Established,
    CloseWait,
    Closed,
}

/// One connection: its state, the next sequence number the stack sends, and
/// the next sequence number it expects from the peer.
#[derive(Debug, Clone, Copy)]
pub struct TcpConnection {
    pub state: TcpState,
    pub send_seq: u32,
    pub recv_seq: u32,
}

/// The addresses and ports that identify a connection, as the peer's
/// segment carries them.
#[derive(Debug, Clone, Copy)]
pub struct ConnectionKey {
    pub src_ip: [u8; 4],
    pub dst_ip: [u8; 4],
    pub src_port: u16,
    pub dst_port: u16,
}

/// The 96-bit number that packs a connection's addresses and ports, under
/// which the table files it.
pub open spec fn key_id(src_ip: Seq<u8>, dst_ip: Seq<u8>, src_port: u16, dst_port: u16) -> nat {
    be_u32(src_ip[0], src_ip[1], src_ip[2], src_ip[3]) * 0x1_0000_0000_0000_0000 + be_u32(
        dst_ip[0],
        dst_ip[1],
        dst_ip[2],
        dst_ip[3],
    ) * 0x1_0000_0000 + src_port as nat * 0x1_0000 + dst_port as nat
}

impl ConnectionKey {
    /// The number under which the table files this connection.
    pub open spec fn spec_id(self) -> nat {
        key_id(self.src_ip@, self.dst_ip@, self.src_port, self.dst_port)
    }

    /// Computes the number under which the table files this connection.
    pub fn id(&self) -> (id: u128)
        ensures
            id == self.spec_id(),
    {
        let s = &self.src_ip;
        let d = &self.dst_ip;
        let src = (s[0] as u128) * 0x1000000 + (s[1] as u128) * 0x10000 + (s[2] as u128) * 0x100
            + (s[3] as u128);
        let dst = (d[0] as u128) * 0x1000000 + (d[1] as u128) * 0x10000 + (d[2] as u128) * 0x100
            + (d[3] as u128);
        src * 0x1_0000_0000_0000_0000 + dst * 0x1_0000_0000 + (self.src_port as u128) * 0x1_0000
            + (self.dst_port as u128)
    }
}

/// A number has one representation as `hi * base + lo` with `lo < base`.
proof fn lemma_split_unique(hi1: nat, lo1: nat, hi2: nat, lo2: nat, base: nat)
    requires
        lo1 < base,
        lo2 < base,
        hi1 * base + lo1 == hi2 * base + lo2,
    ensures
        hi1 == hi2,
        lo1 == lo2,
{
    if hi1 < hi2 {
        assert(hi1 * base + base <= hi2 * base) by (nonlinear_arith)
            requires
                hi1 < hi2,
        ;
    } else if hi2 < hi1 {
        assert(hi2 * base + base <= hi1 * base) by (nonlinear_arith)
            requires
                hi2 < hi1,
        ;
    }
}

/// Four bytes are determined by their big-endian value.
proof fn lemma_be_u32_unique(a: Seq<u8>, b: Seq<u8>)
    requires
        a.len() == 4,
        b.len() == 4,
        be_u32(a[0], a[1], a[2], a[3]) == be_u32(b[0], b[1], b[2], b[3]),
    ensures
        a == b,
{
    let a2 = a[0] as nat * 0x100 + a[1] as nat;
    let b2 = b[0] as nat * 0x100 + b[1] as nat;
    let a3 = a2 * 0x100 + a[2] as nat;
    let b3 = b2 * 0x100 + b[2] as nat;
    assert(be_u32(a[0], a[1], a[2], a[3]) == a3 * 0x100 + a[3] as nat);
    assert(be_u32(b[0], b[1], b[2], b[3]) == b3 * 0x100 + b[3] as nat);
    lemma_split_unique(a3, a[3] as nat, b3, b[3] as nat, 0x100);
    lemma_split_unique(a2, a[2] as nat, b2, b[2] as nat, 0x100);
    lemma_split_unique(a[0] as nat, a[1] as nat, b[0] as nat, b[1] as nat, 0x100);
    assert(a =~= b);
}

/// Distinct connections are filed under distinct numbers: equal numbers
/// mean equal addresses and ports.
pub proof fn lemma_key_id_injective(
    src_a: Seq<u8>,
    dst_a: Seq<u8>,
    src_port_a: u16,
    dst_port_a: u16,
    src_b: Seq<u8>,
    dst_b: Seq<u8>,
    src_port_b: u16,
    dst_port_b: u16,
)
    requires
        src_a.len() == 4,
        dst_a.len() == 4,
        src_b.len() == 4,
        dst_b.len() == 4,
        key_id(src_a, dst_a, src_port_a, dst_port_a) == key_id(src_b, dst_b, src_port_b, dst_port_b),
    ensures
        src_a == src_b,
        dst_a == dst_b,
        src_port_a == src_port_b,
        dst_port_a == dst_port_b,
{
    let sa = be_u32(src_a[0], src_a[1], src_a[2], src_a[3]);
    let sb = be_u32(src_b[0], src_b[1], src_b[2], src_b[3]);
    let da = be_u32(dst_a[0], dst_a[1], dst_a[2], dst_a[3]);
    let db = be_u32(dst_b[0], dst_b[1], dst_b[2], dst_b[3]);
    let ha = sa * 0x1_0000_0000 + da;
    let hb = sb * 0x1_0000_0000 + db;
    let ma = ha * 0x1_0000 + src_port_a as nat;
    let mb = hb * 0x1_0000 + src_port_b as nat;
    assert(key_id(src_a, dst_a, src_port_a, dst_port_a) == ma * 0x1_0000 + dst_port_a as nat)
        by (nonlinear_arith)
        requires
            ma == (sa * 0x1_0000_0000 + da) * 0x1_0000 + src_port_a as nat,
            key_id(src_a, dst_a, src_port_a, dst_port_a) == sa * 0x1_0000_0000_0000_0000 + da
                * 0x1_0000_0000 + src_port_a as nat * 0x1_0000 + dst_port_a as nat,
    ;
    assert(key_id(src_b, dst_b, src_port_b, dst_port_b) == mb * 0x1_0000 + dst_port_b as nat)
        by (nonlinear_arith)
        requires
            mb == (sb * 0x1_0000_0000 + db) * 0x1_0000 + src_port_b as nat,
            key_id(src_b, dst_b, src_port_b, dst_port_b) == sb * 0x1_0000_0000_0000_0000 + db
                * 0x1_0000_0000 + src_port_b as nat * 0x1_0000 + dst_port_b as nat,
    ;
    lemma_split_unique(ma, dst_port_a as nat, mb, dst_port_b as nat, 0x1_0000);
    lemma_split_unique(ha, src_port_a as nat, hb, src_port_b as nat, 0x1_0000);
    assert(da < 0x1_0000_0000 && db < 0x1_0000_0000);
    lemma_split_unique(sa, da, sb, db, 0x1_0000_0000);
    lemma_be_u32_unique(src_a, src_b);
    lemma_be_u32_unique(dst_a, dst_b);
}

/// The table of open connections.
pub struct ConnectionTable {
    connections: HashMap<u128, TcpConnection>,
}

impl View for ConnectionTable {
    type V = Map<u128, TcpConnection>;

    closed spec fn view(&self) -> Map<u128, TcpConnection> {
        self.connections@
    }
}

/// The entry filed under `id`, if any.
pub open spec fn lookup(table: Map<u128, TcpConnection>, id: u128) -> Option<TcpConnection> {
    if table.contains_key(id) {
        Some(table[id])
    } else {
        None
    }
}

impl ConnectionTable {
    /// An empty table.
    pub fn new() -> (table: Self)
        ensures
            table@ == Map::<u128, TcpConnection>::empty(),
    {
        ConnectionTable { connections: HashMap::new() }
    }

    /// The number of open connections.
    pub fn len(&self) -> (n: usize)
        ensures
            n == self@.len(),
    {
        self.connections.len()
    }

    /// The connection filed under `id`, if any.
    pub fn get(&self, id: u128) -> (entry: Option<TcpConnection>)
        ensures
            entry == lookup(self@, id),
    {
        match self.connections.get(&id) {
            Some(c) => Some(*c),
            None => None,
        }
    }

    /// Files `connection` under `id`, replacing any earlier entry.
    pub fn insert(&mut self, id: u128, connection: TcpConnection)
        ensures
            final(self)@ == old(self)@.insert(id, connection),
    {
        self.connections.insert(id, connection);
    }

    /// Removes the entry filed under `id`, if any.
    pub fn remove(&mut self, id: u128)
        ensures
            final(self)@ == old(self)@.remove(id),
    {
        self.connections.remove(&id);
    }
}

/// What the state machine did with a segment.
#[derive(Debug, Clone, Copy, PartialEq, Eq, Structural)]
pub enum TcpAction {
    /// The segment is not for the listening port; nothing changes.
    PortNotListening,
    /// A SYN without ACK: a connection in SYN_RECEIVED was filed (replacing
    /// any earlier one) and a SYN-ACK is sent.
    ConnectionOpened,
    /// No connection is filed for the segment; it is ignored.
    NoConnection,
    /// The final ACK of the handshake: the connection is ESTABLISHED.
    HandshakeComplete,
    /// Any other segment in SYN_RECEIVED; nothing changes.
    UnexpectedInSynReceived,
    /// A FIN: an ACK and a FIN-ACK are sent, the connection is in CLOSE_WAIT.
    FinReceived,
    /// Data at a sequence number other than the expected one: the ACK is
    /// sent again and the data is not processed.
    DuplicateData { expected: u32, got: u32 },
    /// Data at the expected sequence number: it is acknowledged with the
    /// HTTP response; the connection's sequence numbers are now these.
    DataServed { send_seq: u32, recv_seq: u32 },
    /// A bare ACK while established; nothing changes.
    AckReceived,
    /// Any other segment while established; nothing changes.
    Ignored,
    /// The ACK of the stack's FIN: the connection is closed and removed.
    ConnectionClosed,
    /// Any other segment in CLOSE_WAIT; nothing changes.
    AwaitingFinalAck,
    /// A connection found already closed is removed.
    ClosedRemoved,
}

/// How a segment changes the entry of its connection.
pub enum TableChange {
    Keep,
    Put(TcpConnection),
    Remove,
}

/// A reply segment the state machine sends: sequence number,
/// acknowledgement number, flags and payload.
pub type PlannedReply = (u32, u32, u8, Seq<u8>);

/// Whether the flags carry SYN.
pub open spec fn has_syn(flags: u16) -> bool {
    flag_bit(flags, 2)
}

/// Whether the flags carry ACK.
pub open spec fn has_ack(flags: u16) -> bool {
    flag_bit(flags, 16)
}

/// Whether the flags carry FIN.
pub open spec fn has_fin(flags: u16) -> bool {
    flag_bit(flags, 1)
}

/// The transition of the state machine on a segment to `destination_port`
/// with the given flags, sequence and acknowledgement numbers and payload,
/// when `entry` is what the table holds for the segment's connection: what
/// it did, how the entry changes, and the replies it sends.
pub open spec fn tcp_transition(
    entry: Option<TcpConnection>,
    destination_port: u16,
    flags: u16,
    sequence_number: u32,
    acknowledgement_number: u32,
    payload: Seq<u8>,
) -> (TcpAction, TableChange, Seq<PlannedReply>) {
    if destination_port != TCP_LISTEN_PORT {
        (TcpAction::PortNotListening, TableChange::Keep, seq![])
    } else if has_syn(flags) && !has_ack(flags) {
        let recv_seq = sequence_number.wrapping_add(1);
        (
            TcpAction::ConnectionOpened,
            TableChange::Put(
                TcpConnection {
                    state: TcpState::SynReceived,
                    send_seq: INITIAL_SERVER_SEQ,
                    recv_seq,
                },
            ),
            seq![(INITIAL_SERVER_SEQ, recv_seq, 0x12u8, Seq::empty())],
        )
    } else {
        match entry {
            None => (TcpAction::NoConnection, TableChange::Keep, seq![]),
            Some(c) => match c.state {
                TcpState::SynReceived => {
                    if has_ack(flags) && payload.len() == 0 && acknowledgement_number
                        == c.send_seq.wrapping_add(1) {
                        (
                            TcpAction::HandshakeComplete,
                            TableChange::Put(
                                TcpConnection {
                                    state: TcpState::Established,
                                    send_seq: c.send_seq.wrapping_add(1),
                                    recv_seq: c.recv_seq,
                                },
                            ),
                            seq![],
                        )
                    } else {
                        (TcpAction::UnexpectedInSynReceived, TableChange::Keep, seq![])
                    }
                },
                TcpState::Established => {
                    if has_fin(flags) {
                        let recv_seq = sequence_number.wrapping_add(1);
                        (
                            TcpAction::FinReceived,
                            TableChange::Put(
                                TcpConnection {
                                    state: TcpState::CloseWait,
                                    send_seq: c.send_seq.wrapping_add(1),
                                    recv_seq,
                                },
                            ),
                            seq![
                                (c.send_seq, recv_seq, 0x10u8, Seq::empty()),
                                (c.send_seq, recv_seq, 0x11u8, Seq::empty()),
                            ],
                        )
                    } else if has_ack(flags) && payload.len() > 0 {
                        if sequence_number != c.recv_seq {
                            (
                                TcpAction::DuplicateData {
                                    expected: c.recv_seq,
                                    got: sequence_number,
                                },
                                TableChange::Keep,
                                seq![(c.send_seq, c.recv_seq, 0x10u8, Seq::empty())],
                            )
                        } else {
                            let recv_seq = sequence_number.wrapping_add(payload.len() as u32);
                            let response = http_response(http_body(payload));
                            let send_seq = c.send_seq.wrapping_add(response.len() as u32);
                            (
                                TcpAction::DataServed { send_seq, recv_seq },
                                TableChange::Put(
                                    TcpConnection { state: TcpState::Established, send_seq, recv_seq },
                                ),
                                seq![(c.send_seq, recv_seq, 0x18u8, response)],
                            )
                        }
                    } else if has_ack(flags) && payload.len() == 0 {
                        (TcpAction::AckReceived, TableChange::Keep, seq![])
                    } else {
                        (TcpAction::Ignored, TableChange::Keep, seq![])
                    }
                },
                TcpState::CloseWait => {
                    if has_ack(flags) {
                        (TcpAction::ConnectionClosed, TableChange::Remove, seq![])
                    } else {
                        (TcpAction::AwaitingFinalAck, TableChange::Keep, seq![])
                    }
                },
                TcpState::Closed => (TcpAction::ClosedRemoved, TableChange::Remove, seq![]),
            },
        }
    }
}

/// The table after `change` to the entry filed under `id`.
pub open spec fn apply_change(table: Map<u128, TcpConnection>, id: u128, change: TableChange) -> Map<
    u128,
    TcpConnection,
> {
    match change {
        TableChange::Keep => table,
        TableChange::Put(c) => table.insert(id, c),
        TableChange::Remove => table.remove(id),
    }
}

/// The bytes of the planned replies to a segment from `src`:`src_port` to
/// `dst`:`dst_port`.
pub open spec fn reply_packets(
    src: Seq<u8>,
    dst: Seq<u8>,
    src_port: u16,
    dst_port: u16,
    plans: Seq<PlannedReply>,
) -> Seq<Seq<u8>> {
    plans.map_values(
        |p: PlannedReply| tcp_reply_packet(src, dst, src_port, dst_port, p.0, p.1, p.2, p.3),
    )
}

/// Whether no entry of `table` is in CLOSED.
pub open spec fn no_closed_entries(table: Map<u128, TcpConnection>) -> bool {
    forall|id: u128| table.contains_key(id) ==> #[trigger] table[id].state != TcpState::Closed
}

/// A closed connection never stays in the table: every step keeps a table
/// without CLOSED entries so, and the empty table has none.
pub proof fn lemma_no_closed_entries_kept(
    table: Map<u128, TcpConnection>,
    id: u128,
    destination_port: u16,
    flags: u16,
    sequence_number: u32,
    acknowledgement_number: u32,
    payload: Seq<u8>,
)
    requires
        no_closed_entries(table),
    ensures
        no_closed_entries(Map::<u128, TcpConnection>::empty()),
        no_closed_entries(
            apply_change(
                table,
                id,
                tcp_transition(
                    lookup(table, id),
                    destination_port,
                    flags,
                    sequence_number,
                    acknowledgement_number,
                    payload,
                ).1,
            ),
        ),
{
}

/// A segment changes at most the entry of its own connection.
pub proof fn lemma_other_connections_untouched(
    table: Map<u128, TcpConnection>,
    id: u128,
    other: u128,
    change: TableChange,
)
    requires
        other != id,
    ensures
        lookup(apply_change(table, id, change), other) == lookup(table, other),
{
}

/// Segments to any port but the listening one change nothing and get no reply.
pub proof fn lemma_other_ports_ignored(
    entry: Option<TcpConnection>,
    destination_port: u16,
    flags: u16,
    sequence_number: u32,
    acknowledgement_number: u32,
    payload: Seq<u8>,
)
    requires
        destination_port != TCP_LISTEN_PORT,
    ensures
        ({
            let (action, change, replies) = tcp_transition(
                entry,
                destination_port,
                flags,
                sequence_number,
                acknowledgement_number,
                payload,
            );
            action == TcpAction::PortNotListening && change is Keep && replies.len() == 0
        }),
{
}

/// The three-way handshake: a SYN with client sequence number `s` files a
/// connection in SYN_RECEIVED and is answered by a SYN-ACK with sequence
/// number 1000 acknowledging `s + 1`; the client's ACK of 1001 then
/// establishes the connection, with 1001 and `s + 1` as the next sequence
/// numbers, and leaves every other connection as it was.
pub proof fn lemma_three_way_handshake(
    table: Map<u128, TcpConnection>,
    id: u128,
    s: u32,
    syn_flags: u16,
    syn_ack_number: u32,
    ack_flags: u16,
)
    requires
        has_syn(syn_flags),
        !has_ack(syn_flags),
        has_ack(ack_flags),
    ensures
        ({
            let (a1, c1, r1) = tcp_transition(
                lookup(table, id),
                TCP_LISTEN_PORT,
                syn_flags,
                s,
                syn_ack_number,
                Seq::empty(),
            );
            let t1 = apply_change(table, id, c1);
            let (a2, c2, r2) = tcp_transition(
                lookup(t1, id),
                TCP_LISTEN_PORT,
                ack_flags,
                s.wrapping_add(1),
                1001u32,
                Seq::empty(),
            );
            let t2 = apply_change(t1, id, c2);
            &&& a1 == TcpAction::ConnectionOpened
            &&& r1 == seq![(INITIAL_SERVER_SEQ, s.wrapping_add(1), 0x12u8, Seq::<u8>::empty())]
            &&& lookup(t1, id) == Some(
                TcpConnection {
                    state: TcpState::SynReceived,
                    send_seq: INITIAL_SERVER_SEQ,
                    recv_seq: s.wrapping_add(1),
                },
            )
            &&& a2 == TcpAction::HandshakeComplete
            &&& r2.len() == 0
            &&& lookup(t2, id) == Some(
                TcpConnection {
                    state: TcpState::Established,
                    send_seq: 1001u32,
                    recv_seq: s.wrapping_add(1),
                },
            )
            &&& forall|other: u128| other != id ==> lookup(t2, other) == lookup(table, other)
        }),
{
    let t1 = apply_change(
        table,
        id,
        tcp_transition(lookup(table, id), TCP_LISTEN_PORT, syn_flags, s, syn_ack_number, Seq::empty()).1,
    );
    assert(lookup(t1, id) == Some(
        TcpConnection {
            state: TcpState::SynReceived,
            send_seq: INITIAL_SERVER_SEQ,
            recv_seq: s.wrapping_add(1),
        },
    ));
    assert(INITIAL_SERVER_SEQ.wrapping_add(1) == 1001u32);
}

/// Closing: a FIN on an established connection is answered by an ACK and a
/// FIN-ACK, both acknowledging the FIN's sequence number plus one, and moves
/// the connection to CLOSE_WAIT; the peer's ACK then removes it.
pub proof fn lemma_close(
    table: Map<u128, TcpConnection>,
    id: u128,
    fin_flags: u16,
    s: u32,
    fin_ack_number: u32,
    fin_payload: Seq<u8>,
    ack_flags: u16,
    ack_seq: u32,
    ack_number: u32,
    ack_payload: Seq<u8>,
)
    requires
        lookup(table, id) matches Some(c) && c.state == TcpState::Established,
        has_fin(fin_flags),
        !(has_syn(fin_flags) && !has_ack(fin_flags)),
        has_ack(ack_flags),
    ensures
        ({
            let c = lookup(table, id)->0;
            let (a1, c1, r1) = tcp_transition(
                lookup(table, id),
                TCP_LISTEN_PORT,
                fin_flags,
                s,
                fin_ack_number,
                fin_payload,
            );
            let t1 = apply_change(table, id, c1);
            let (a2, c2, r2) = tcp_transition(
                lookup(t1, id),
                TCP_LISTEN_PORT,
                ack_flags,
                ack_seq,
                ack_number,
                ack_payload,
            );
            let t2 = apply_change(t1, id, c2);
            &&& a1 == TcpAction::FinReceived
            &&& r1 == seq![
                (c.send_seq, s.wrapping_add(1), 0x10u8, Seq::<u8>::empty()),
                (c.send_seq, s.wrapping_add(1), 0x11u8, Seq::<u8>::empty()),
            ]
            &&& lookup(t1, id) == Some(
                TcpConnection {
                    state: TcpState::CloseWait,
                    send_seq: c.send_seq.wrapping_add(1),
                    recv_seq: s.wrapping_add(1),
                },
            )
            &&& a2 == TcpAction::ConnectionClosed
            &&& r2.len() == 0
            &&& lookup(t2, id) == None::<TcpConnection>
            &&& t2 == table.remove(id)
        }),
{
    let c = lookup(table, id)->0;
    let t1 = table.insert(
        id,
        TcpConnection {
            state: TcpState::CloseWait,
            send_seq: c.send_seq.wrapping_add(1),
            recv_seq: s.wrapping_add(1),
        },
    );
    assert(t1.remove(id) =~= table.remove(id));
}

/// Data on an established connection: in order, it advances the expected
/// sequence number by its length and the stack's by the length of the HTTP
/// response it sends; out of order, it changes nothing and only the ACK of
/// what was expected is sent again.
pub proof fn lemma_data_sequence_numbers(
    c: TcpConnection,
    flags: u16,
    s: u32,
    acknowledgement_number: u32,
    payload: Seq<u8>,
)
    requires
        c.state == TcpState::Established,
        has_ack(flags),
        !has_fin(flags),
        payload.len() > 0,
    ensures
        ({
            let (action, change, replies) = tcp_transition(
                Some(c),
                TCP_LISTEN_PORT,
                flags,
                s,
                acknowledgement_number,
                payload,
            );
            let response = http_response(http_body(payload));
            if s == c.recv_seq {
                &&& change == TableChange::Put(
                    TcpConnection {
                        state: TcpState::Established,
                        send_seq: c.send_seq.wrapping_add(response.len() as u32),
                        recv_seq: s.wrapping_add(payload.len() as u32),
                    },
                )
                &&& replies == seq![(c.send_seq, s.wrapping_add(payload.len() as u32), 0x18u8, response)]
            } else {
                &&& change is Keep
                &&& replies == seq![(c.send_seq, c.recv_seq, 0x10u8, Seq::<u8>::empty())]
            }
        }),
{
}

/// A bare ACK (ACK set, FIN clear, no payload) on an established connection
/// changes nothing: the entry stays as it is and nothing is sent.
pub proof fn lemma_bare_ack_changes_nothing(
    c: TcpConnection,
    flags: u16,
    sequence_number: u32,
    acknowledgement_number: u32,
)
    requires
        c.state == TcpState::Established,
        has_ack(flags),
        !has_fin(flags),
    ensures
        ({
            let (action, change, replies) = tcp_transition(
                Some(c),
                TCP_LISTEN_PORT,
                flags,
                sequence_number,
                acknowledgement_number,
                Seq::empty(),
            );
            &&& action == TcpAction::AckReceived
            &&& change is Keep
            &&& replies.len() == 0
        }),
{
}

/// On an established connection, the sequence number expected from the peer
/// changes only when a FIN arrives (it becomes the FIN's number plus one) or
/// when data arrives at exactly the expected number (it advances by the
/// data's length); every other segment but a new SYN leaves it as it was.
pub proof fn lemma_recv_seq_moves_only_on_data_or_fin(
    c: TcpConnection,
    destination_port: u16,
    flags: u16,
    sequence_number: u32,
    acknowledgement_number: u32,
    payload: Seq<u8>,
)
    requires
        c.state == TcpState::Established,
        !(has_syn(flags) && !has_ack(flags)),
    ensures
        match tcp_transition(
            Some(c),
            destination_port,
            flags,
            sequence_number,
            acknowledgement_number,
            payload,
        ).1 {
            TableChange::Put(n) => {
                ||| n.recv_seq == c.recv_seq
                ||| has_fin(flags) && n.recv_seq == sequence_number.wrapping_add(1)
                ||| payload.len() > 0 && has_ack(flags) && sequence_number == c.recv_seq
                    && n.recv_seq == sequence_number.wrapping_add(payload.len() as u32)
            },
            _ => true,
        },
        !has_fin(flags) && (payload.len() == 0 || sequence_number != c.recv_seq) ==> !(tcp_transition(
            Some(c),
            destination_port,
            flags,
            sequence_number,
            acknowledgement_number,
            payload,
        ).1 is Put),
{
}

/// In SYN_RECEIVED, only an ACK without payload that acknowledges the
/// stack's SYN (its sequence number plus one) changes the entry, to
/// ESTABLISHED with the stack's sequence number advanced by one; any other
/// segment but a new SYN changes nothing and gets no reply.
pub proof fn lemma_syn_received_waits_for_its_ack(
    c: TcpConnection,
    flags: u16,
    sequence_number: u32,
    acknowledgement_number: u32,
    payload: Seq<u8>,
)
    requires
        c.state == TcpState::SynReceived,
        !(has_syn(flags) && !has_ack(flags)),
    ensures
        ({
            let (action, change, replies) = tcp_transition(
                Some(c),
                TCP_LISTEN_PORT,
                flags,
                sequence_number,
                acknowledgement_number,
                payload,
            );
            &&& replies.len() == 0
            &&& if has_ack(flags) && payload.len() == 0 && acknowledgement_number
                == c.send_seq.wrapping_add(1) {
                &&& action == TcpAction::HandshakeComplete
                &&& change == TableChange::Put(
                    TcpConnection {
                        state: TcpState::Established,
                        send_seq: c.send_seq.wrapping_add(1),
                        recv_seq: c.recv_seq,
                    },
                )
            } else {
                action == TcpAction::UnexpectedInSynReceived && change is Keep
            }
        }),
{
}

/// In CLOSE_WAIT, an ACK removes the connection and anything else but a new
/// SYN leaves it; neither gets a reply.
pub proof fn lemma_close_wait_needs_ack(
    c: TcpConnection,
    flags: u16,
    sequence_number: u32,
    acknowledgement_number: u32,
    payload: Seq<u8>,
)
    requires
        c.state == TcpState::CloseWait,
        !(has_syn(flags) && !has_ack(flags)),
    ensures
        ({
            let (action, change, replies) = tcp_transition(
                Some(c),
                TCP_LISTEN_PORT,
                flags,
                sequence_number,
                acknowledgement_number,
                payload,
            );
            &&& replies.len() == 0
            &&& has_ack(flags) ==> action == TcpAction::ConnectionClosed && change is Remove
            &&& !has_ack(flags) ==> action == TcpAction::AwaitingFinalAck && change is Keep
        }),
{
}

/// A segment to the listening port for which no connection is filed, other
/// than a SYN, changes nothing and gets no reply; a SYN always files a new
/// connection in SYN_RECEIVED, whatever was filed before.
pub proof fn lemma_segments_without_connection(
    entry: Option<TcpConnection>,
    flags: u16,
    sequence_number: u32,
    acknowledgement_number: u32,
    payload: Seq<u8>,
)
    ensures
        ({
            let (action, change, replies) = tcp_transition(
                entry,
                TCP_LISTEN_PORT,
                flags,
                sequence_number,
                acknowledgement_number,
                payload,
            );
            &&& has_syn(flags) && !has_ack(flags) ==> change == TableChange::Put(
                TcpConnection {
                    state: TcpState::SynReceived,
                    send_seq: INITIAL_SERVER_SEQ,
                    recv_seq: sequence_number.wrapping_add(1),
                },
            ) && replies.len() == 1
            &&& entry is None && !(has_syn(flags) && !has_ack(flags)) ==> action
                == TcpAction::NoConnection && change is Keep && replies.len() == 0
        }),
{
}

/// Every TCP reply goes back to the segment's sender: from `dst`:`dst_port`
/// to `src`:`src_port`, with the window 64240 and a valid TCP checksum.
pub proof fn lemma_tcp_replies_go_back(
    src: Seq<u8>,
    dst: Seq<u8>,
    src_port: u16,
    dst_port: u16,
    plans: Seq<PlannedReply>,
)
    requires
        src.len() == 4,
        dst.len() == 4,
        forall|i: int| 0 <= i < plans.len() ==> #[trigger] plans[i].3.len() + 40 <= 0xFFFF,
    ensures
        forall|i: int|
            0 <= i < plans.len() ==> {
                let p = #[trigger] reply_packets(src, dst, src_port, dst_port, plans)[i];
                let seg = ipv4_payload(p);
                &&& ipv4_parses(p)
                &&& p.subrange(12, 16) == dst
                &&& p.subrange(16, 20) == src
                &&& be_u16(seg[0], seg[1]) == dst_port
                &&& be_u16(seg[2], seg[3]) == src_port
                &&& be_u16(seg[14], seg[15]) == 64240
                &&& tcp_checksum(dst, src, seg) == 0
            },
{
    assert forall|i: int| 0 <= i < plans.len() implies {
        let p = #[trigger] reply_packets(src, dst, src_port, dst_port, plans)[i];
        let seg = ipv4_payload(p);
        &&& ipv4_parses(p)
        &&& p.subrange(12, 16) == dst
        &&& p.subrange(16, 20) == src
        &&& be_u16(seg[0], seg[1]) == dst_port
        &&& be_u16(seg[2], seg[3]) == src_port
        &&& be_u16(seg[14], seg[15]) == 64240
        &&& tcp_checksum(dst, src, seg) == 0
    } by {
        let q = plans[i];
        lemma_tcp_reply_parses_back(src, dst, src_port, dst_port, q.0, q.1, q.2, q.3);
    }
}

/// The transition on the segment `tcp` carried by `ipv4`.
pub open spec fn segment_transition(table: Map<u128, TcpConnection>, ipv4: Ipv4Packet, tcp: TcpPacket) -> (
    TcpAction,
    TableChange,
    Seq<PlannedReply>,
) {
    let id = key_id(ipv4.source_ip@, ipv4.destination_ip@, tcp.source_port, tcp.destination_port) as u128;
    tcp_transition(
        lookup(table, id),
        tcp.destination_port,
        tcp.flags,
        tcp.sequence_number,
        tcp.acknowledgement_number,
        tcp.payload@,
    )
}

/// The bytes of each packet of `packets`.
pub open spec fn packets_view(packets: Seq<Vec<u8>>) -> Seq<Seq<u8>> {
    packets.map_values(|p: Vec<u8>| p@)
}

/// The pseudo-header sums of replies of up to 600 payload bytes fit in 32 bits.
proof fn lemma_reply_sum_fits(
    ipv4: Ipv4Packet,
    tcp: TcpPacket,
    sequence_number: u32,
    acknowledgement_number: u32,
    flags: u8,
    payload: Seq<u8>,
)
    requires
        payload.len() < 600,
    ensures
        crate::reply::tcp_reply_sum_fits(
            ipv4,
            tcp_segment_fields(
                tcp.destination_port,
                tcp.source_port,
                sequence_number,
                acknowledgement_number,
                flags,
                payload,
            ),
        ),
{
    let fields = tcp_segment_fields(
        tcp.destination_port,
        tcp.source_port,
        sequence_number,
        acknowledgement_number,
        flags,
        payload,
    );
    lemma_raw_sum_bound(tcp_pseudo_packet(ipv4.destination_ip@, ipv4.source_ip@, fields));
}

/// Runs the state machine on the segment `tcp_packet`, carried by
/// `ipv4_packet`: updates the connection's entry in `connections` and
/// returns what was done and the reply packets to send, in order.
pub fn handle_tcp(
    connections: &mut ConnectionTable,
    ipv4_packet: &Ipv4Packet,
    tcp_packet: &TcpPacket,
) -> (outcome: (TcpAction, Vec<Vec<u8>>))
    ensures
        ({
            let id = key_id(
                ipv4_packet.source_ip@,
                ipv4_packet.destination_ip@,
                tcp_packet.source_port,
                tcp_packet.destination_port,
            ) as u128;
            let (action, change, plans) = segment_transition(old(connections)@, *ipv4_packet, *tcp_packet);
            &&& outcome.0 == action
            &&& final(connections)@ == apply_change(old(connections)@, id, change)
            &&& packets_view(outcome.1@) == reply_packets(
                ipv4_packet.source_ip@,
                ipv4_packet.destination_ip@,
                tcp_packet.source_port,
                tcp_packet.destination_port,
                plans,
            )
        }),
{
    let ghost id = key_id(
        ipv4_packet.source_ip@,
        ipv4_packet.destination_ip@,
        tcp_packet.source_port,
        tcp_packet.destination_port,
    ) as u128;
    let ghost transition = segment_transition(connections@, *ipv4_packet, *tcp_packet);
    let ghost replies_spec = reply_packets(
        ipv4_packet.source_ip@,
        ipv4_packet.destination_ip@,
        tcp_packet.source_port,
        tcp_packet.destination_port,
        transition.2,
    );
    let mut replies: Vec<Vec<u8>> = Vec::new();
    if tcp_packet.destination_port != TCP_LISTEN_PORT {
        assert(packets_view(replies@) =~= replies_spec);
        return (TcpAction::PortNotListening, replies);
    }
    let key = ConnectionKey {
        src_ip: ipv4_packet.source_ip,
        dst_ip: ipv4_packet.destination_ip,
        src_port: tcp_packet.source_port,
        dst_port: tcp_packet.destination_port,
    };
    let key_id = key.id();
    assert(key_id == id);
    let syn = tcp_packet.syn();
    let ack = tcp_packet.ack();
    let fin = tcp_packet.fin();
    if syn && !ack {
        let client_next_seq = tcp_packet.sequence_number.wrapping_add(1);
        connections.insert(
            key_id,
            TcpConnection {
                state: TcpState::SynReceived,
                send_seq: INITIAL_SERVER_SEQ,
                recv_seq: client_next_seq,
            },
        );
        proof {
            lemma_reply_sum_fits(
                *ipv4_packet,
                *tcp_packet,
                INITIAL_SERVER_SEQ,
                client_next_seq,
                0x12,
                Seq::empty(),
            );
        }
        let reply = build_tcp_syn_ack_reply(ipv4_packet, tcp_packet, INITIAL_SERVER_SEQ);
        replies.push(reply);
        assert(packets_view(replies@) =~= replies_spec);
        return (TcpAction::ConnectionOpened, replies);
    }
    let connection = match connections.get(key_id) {
        Some(c) => c,
        None => {
            assert(packets_view(replies@) =~= replies_spec);
            return (TcpAction::NoConnection, replies);
        },
    };
    let action = match connection.state {
        TcpState::SynReceived => {
            if ack && tcp_packet.payload.len() == 0 && tcp_packet.acknowledgement_number
                == connection.send_seq.wrapping_add(1) {
                connections.insert(
                    key_id,
                    TcpConnection {
                        state: TcpState::Established,
                        send_seq: connection.send_seq.wrapping_add(1),
                        recv_seq: connection.recv_seq,
                    },
                );
                TcpAction::HandshakeComplete
            } else {
                TcpAction::UnexpectedInSynReceived
            }
        },
        TcpState::Established => {
            if fin {
                let ack_number = tcp_packet.sequence_number.wrapping_add(1);
                proof {
                    lemma_reply_sum_fits(
                        *ipv4_packet,
                        *tcp_packet,
                        connection.send_seq,
                        ack_number,
                        0x10,
                        Seq::empty(),
                    );
                    lemma_reply_sum_fits(
                        *ipv4_packet,
                        *tcp_packet,
                        connection.send_seq,
                        ack_number,
                        0x11,
                        Seq::empty(),
                    );
                }
                let ack_reply = build_tcp_control_packet(
                    ipv4_packet,
                    tcp_packet,
                    connection.send_seq,
                    ack_number,
                    0x10,
                );
                replies.push(ack_reply);
                let fin_ack_reply = build_tcp_control_packet(
                    ipv4_packet,
                    tcp_packet,
                    connection.send_seq,
                    ack_number,
                    0x11,
                );
                replies.push(fin_ack_reply);
                connections.insert(
                    key_id,
                    TcpConnection {
                        state: TcpState::CloseWait,
                        send_seq: connection.send_seq.wrapping_add(1),
                        recv_seq: ack_number,
                    },
                );
                TcpAction::FinReceived
            } else if ack && tcp_packet.payload.len() > 0 {
                let expected_seq = connection.recv_seq;
                if tcp_packet.sequence_number != expected_seq {
                    proof {
                        lemma_reply_sum_fits(
                            *ipv4_packet,
                            *tcp_packet,
                            connection.send_seq,
                            connection.recv_seq,
                            0x10,
                            Seq::empty(),
                        );
                    }
                    let ack_reply = build_tcp_control_packet(
                        ipv4_packet,
                        tcp_packet,
                        connection.send_seq,
                        connection.recv_seq,
                        0x10,
                    );
                    replies.push(ack_reply);
                    TcpAction::DuplicateData { expected: expected_seq, got: tcp_packet.sequence_number }
                } else {
                    let ack_number = tcp_packet.sequence_number.wrapping_add(
                        tcp_packet.payload.len() as u32,
                    );
                    let http_response = build_http_response(tcp_packet.payload);
                    proof {
                        lemma_http_response_short(tcp_packet.payload@);
                        lemma_reply_sum_fits(
                            *ipv4_packet,
                            *tcp_packet,
                            connection.send_seq,
                            ack_number,
                            0x18,
                            http_response@,
                        );
                    }
                    let reply = build_tcp_http_reply(
                        ipv4_packet,
                        tcp_packet,
                        connection.send_seq,
                        ack_number,
                        http_response.as_slice(),
                    );
                    replies.push(reply);
                    let send_seq = connection.send_seq.wrapping_add(http_response.len() as u32);
                    connections.insert(
                        key_id,
                        TcpConnection { state: TcpState::Established, send_seq, recv_seq: ack_number },
                    );
                    TcpAction::DataServed { send_seq, recv_seq: ack_number }
                }
            } else if ack && tcp_packet.payload.len() == 0 {
                TcpAction::AckReceived
            } else {
                TcpAction::Ignored
            }
        },
        TcpState::CloseWait => {
            if ack {
                connections.remove(key_id);
                TcpAction::ConnectionClosed
            } else {
                TcpAction::AwaitingFinalAck
            }
        },
        TcpState::Closed => {
            connections.remove(key_id);
            TcpAction::ClosedRemoved
        },
    };
    assert(packets_view(replies@) =~= replies_spec);
    (action, replies)
}

} // verus!
