//! The forwarding engine: the correlation table, the id allocator, the
//! upstream selector, and the request/response dispatch with its
//! provenance validation. The engine turns each inbound datagram into a
//! new state and a list of datagrams to send; the transport layer
//! performs the receives and sends around it.

use vstd::prelude::*;

use crate::addr::{spec_null_address, SocketAddress};
use crate::enums::ResponseCode;
use crate::filter::{spec_request_action, spec_response_action, Filter};
use crate::message::{with_id, Header, Message, MessageV};
use crate::wire::{dec_message, dec_u16, enc_message, wf_message_wire};
use crate::{Action, ActionV};
use vstd::pervasive::VecAdditionalExecFns;

verus! {

/// One in-flight request: where it came from, the id it carried, which
/// upstream it went to, and the id it was forwarded under. The slot index
/// in the correlation table always equals `upstream_id`.
#[derive(Debug, PartialEq, Eq, Structural, Clone, Copy)]
pub struct ConnectionData {
    pub origin: SocketAddress,
    pub origin_id: u16,
    pub upstream: SocketAddress,
    pub upstream_id: u16,
}

/// The sentinel for an unused slot: null addresses and zero ids.
pub open spec fn spec_empty_slot() -> ConnectionData {
    ConnectionData {
        origin: spec_null_address(),
        origin_id: 0,
        upstream: spec_null_address(),
        upstream_id: 0,
    }
}

impl ConnectionData {
    /// An unused slot.
    pub fn new() -> (r: Self)
        ensures
            r == spec_empty_slot(),
    {
        ConnectionData {
            origin: SocketAddress::null(),
            origin_id: 0,
            upstream: SocketAddress::null(),
            upstream_id: 0,
        }
    }
}

/// One datagram the engine wants sent: the bytes and the destination.
pub struct Outbound {
    pub data: Vec<u8>,
    pub dest: SocketAddress,
}

/// The mathematical value of an outbound datagram.
pub struct OutboundV {
    pub data: Seq<u8>,
    pub dest: SocketAddress,
}

impl View for Outbound {
    type V = OutboundV;

    open spec fn view(&self) -> OutboundV {
        OutboundV { data: self.data@, dest: self.dest }
    }
}

/// The value sequences of an outbound list.
pub open spec fn outs_view(v: Seq<Outbound>) -> Seq<OutboundV> {
    Seq::new(v.len(), |i: int| v[i]@)
}

/// The mathematical state of the engine.
pub struct ServerV {
    pub udpseq: u16,
    pub upstream: Seq<SocketAddress>,
    pub requests: Seq<ConnectionData>,
}

/// The id the allocator hands out after a given counter value: advance
/// by one, wrapping at 16 bits, then clamp into the range from 1024 up,
/// reserving the low id space.
pub open spec fn spec_advance_id(s: u16) -> u16 {
    if 1023 <= s < 65535 {
        (s + 1) as u16
    } else {
        1024
    }
}

/// The counter value after `k` consecutive allocations from a seed;
/// each allocation's result is the counter value it leaves behind.
pub open spec fn nth_id(seed: u16, k: nat) -> u16
    decreases k,
{
    if k == 0 {
        seed
    } else {
        spec_advance_id(nth_id(seed, (k - 1) as nat))
    }
}

/// After the first allocation the counter walks a cycle of the 64,512
/// ids from 1024 up: each later allocation lands a fixed offset around
/// that cycle.
proof fn lemma_nth_id_cycle(seed: u16, k: nat, d: nat)
    requires
        k >= 1,
    ensures
        1024 <= nth_id(seed, k) <= 65535,
        nth_id(seed, k + d) == 1024 + ((nth_id(seed, k) - 1024 + d) % 64512),
    decreases d,
{
    if d == 0 {
        assert(1024 <= nth_id(seed, k) <= 65535) by {
            lemma_nth_id_range(seed, k);
        }
        let p = nth_id(seed, k) - 1024;
        assert(p % 64512 == p) by (nonlinear_arith)
            requires
                0 <= p < 64512,
        ;
    } else {
        lemma_nth_id_cycle(seed, k, (d - 1) as nat);
        let prev = nth_id(seed, (k + d - 1) as nat);
        let p = nth_id(seed, k) - 1024;
        let r = (p + d - 1) % 64512;
        assert(0 <= r < 64512) by (nonlinear_arith)
            requires
                0 <= p + d - 1,
                r == (p + d - 1) % 64512,
        ;
        assert(nth_id(seed, k + d) == spec_advance_id(prev)) by {
            assert(k + d >= 1);
            assert((k + d - 1) as nat == (k + ((d - 1) as nat)) as nat);
        }
        if r < 64511 {
            assert(spec_advance_id(prev) == 1024 + r + 1);
            assert((p + d) % 64512 == r + 1) by (nonlinear_arith)
                requires
                    0 <= p + d - 1,
                    r == (p + d - 1) % 64512,
                    r < 64511,
            ;
        } else {
            assert(prev == 65535);
            assert(spec_advance_id(prev) == 1024);
            assert((p + d) % 64512 == 0) by (nonlinear_arith)
                requires
                    0 <= p + d - 1,
                    (p + d - 1) % 64512 == 64511,
            ;
        }
    }
}

/// Every allocated id lies in the reserved-free range from 1024 up.
proof fn lemma_nth_id_range(seed: u16, k: nat)
    requires
        k >= 1,
    ensures
        1024 <= nth_id(seed, k) <= 65535,
    decreases k,
{
    if k == 1 {
    } else {
        lemma_nth_id_range(seed, (k - 1) as nat);
    }
}

/// Id allocation law: every allocated id is at least 1024, and two
/// allocations less than a full cycle of the 64,512 usable ids apart
/// hand out distinct ids — so ids stay unique until the counter wraps.
/// Each allocation's result is also the slot index the engine records
/// its correlation entry under.
pub proof fn lemma_id_allocation(seed: u16, k1: nat, k2: nat)
    requires
        1 <= k1 < k2,
        k2 - k1 < 64512,
    ensures
        nth_id(seed, k1) >= 1024,
        nth_id(seed, k2) >= 1024,
        nth_id(seed, k1) != nth_id(seed, k2),
{
    lemma_nth_id_range(seed, k1);
    lemma_nth_id_range(seed, k2);
    let d = (k2 - k1) as nat;
    lemma_nth_id_cycle(seed, k1, d);
    let p = nth_id(seed, k1) - 1024;
    assert(0 <= p < 64512);
    if p + d < 64512 {
        assert((p + d) % 64512 == p + d) by (nonlinear_arith)
            requires
                0 <= p + d < 64512,
        ;
    } else {
        assert((p + d) % 64512 == p + d - 64512) by (nonlinear_arith)
            requires
                64512 <= p + d < 2 * 64512,
        ;
    }
}

/// What the engine sends when it forwards or answers with a message `m`
/// to `dest`: the serialized bytes when the message can stand on the
/// wire, and nothing at all otherwise — no partial datagram is ever sent.
pub open spec fn sent_message(outs: Seq<OutboundV>, m: MessageV, dest: SocketAddress) -> bool {
    if wf_message_wire(m) {
        outs.len() == 1 && outs[0].data == enc_message(m) && outs[0].dest == dest
    } else {
        outs.len() == 0
    }
}

/// The synthetic response the engine builds from a request's header:
/// the header copied, recursion available set, the given response code,
/// and no sections.
pub open spec fn error_reply(h: Header, rc: ResponseCode) -> MessageV {
    MessageV {
        head: Header { recursion_available: true, response_code: rc, ..h },
        questions: Seq::empty(),
        answers: Seq::empty(),
        authority: Seq::empty(),
        additional: Seq::empty(),
        opt: None,
    }
}

/// As `error_reply`, but with the recursion-available flag left as it
/// was: the response path copies the header without touching it.
pub open spec fn error_reply_raw(h: Header, rc: ResponseCode) -> MessageV {
    MessageV {
        head: Header { response_code: rc, ..h },
        questions: Seq::empty(),
        answers: Seq::empty(),
        authority: Seq::empty(),
        additional: Seq::empty(),
        opt: None,
    }
}

/// How the engine acts on a filter disposition for a query from
/// `origin`: what the next state and the outbound datagrams must be.
/// Forwarding allocates the next id, records the correlation entry at
/// the slot that id indexes, and sends to some configured upstream;
/// `MessageTo` forwards to the given destination under the replacement
/// message's own id instead.
pub open spec fn request_step(
    pre: ServerV,
    m: MessageV,
    origin: SocketAddress,
    a: ActionV,
    post: ServerV,
    outs: Seq<OutboundV>,
) -> bool {
    match a {
        ActionV::Pass => {
            let nid = spec_advance_id(pre.udpseq);
            &&& post.udpseq == nid
            &&& post.upstream == pre.upstream
            &&& exists|i: int|
                #![trigger pre.upstream[i]]
                0 <= i < pre.upstream.len() && {
                    let up = pre.upstream[i];
                    &&& post.requests == pre.requests.update(
                        nid as int,
                        ConnectionData {
                            origin,
                            origin_id: m.head.id,
                            upstream: up,
                            upstream_id: nid,
                        },
                    )
                    &&& sent_message(outs, with_id(m, nid), up)
                }
        },
        ActionV::PassMangled(nm) => {
            let nid = spec_advance_id(pre.udpseq);
            &&& post.udpseq == nid
            &&& post.upstream == pre.upstream
            &&& exists|i: int|
                #![trigger pre.upstream[i]]
                0 <= i < pre.upstream.len() && {
                    let up = pre.upstream[i];
                    &&& post.requests == pre.requests.update(
                        nid as int,
                        ConnectionData { origin, origin_id: nid, upstream: up, upstream_id: nid },
                    )
                    &&& sent_message(outs, with_id(nm, nid), up)
                }
        },
        ActionV::SendServFail => post == pre && sent_message(
            outs,
            error_reply(m.head, ResponseCode::ServerFailure),
            origin,
        ),
        ActionV::SendNxDomain => post == pre && sent_message(
            outs,
            error_reply(m.head, ResponseCode::NameError),
            origin,
        ),
        ActionV::SendRefused => post == pre && sent_message(
            outs,
            error_reply(m.head, ResponseCode::Refused),
            origin,
        ),
        ActionV::Nop => post == pre && outs.len() == 0,
        ActionV::SendResponse(nm) => post == pre && sent_message(outs, nm, origin),
        ActionV::MessageTo(nm, dest) => {
            &&& post.udpseq == pre.udpseq
            &&& post.upstream == pre.upstream
            &&& post.requests == pre.requests.update(
                nm.head.id as int,
                ConnectionData {
                    origin,
                    origin_id: m.head.id,
                    upstream: dest,
                    upstream_id: nm.head.id,
                },
            )
            &&& sent_message(outs, nm, dest)
        },
    }
}

/// How the engine acts on a filter disposition for a validated response:
/// the id restored on messages to the origin is the recorded
/// original-client id, and `MessageTo` re-establishes a fresh
/// correlation entry preserving the recorded origin so that further hops
/// stay traceable.
pub open spec fn response_step(
    pre: ServerV,
    m: MessageV,
    slot: ConnectionData,
    a: ActionV,
    post: ServerV,
    outs: Seq<OutboundV>,
) -> bool {
    match a {
        ActionV::Pass => post == pre && sent_message(
            outs,
            with_id(m, slot.origin_id),
            slot.origin,
        ),
        ActionV::PassMangled(nm) => post == pre && sent_message(
            outs,
            with_id(nm, slot.origin_id),
            slot.origin,
        ),
        ActionV::SendServFail => post == pre && sent_message(
            outs,
            error_reply_raw(m.head, ResponseCode::ServerFailure),
            slot.origin,
        ),
        ActionV::SendNxDomain => post == pre && sent_message(
            outs,
            error_reply_raw(m.head, ResponseCode::NameError),
            slot.origin,
        ),
        ActionV::SendRefused => post == pre && sent_message(
            outs,
            error_reply_raw(m.head, ResponseCode::Refused),
            slot.origin,
        ),
        ActionV::Nop => post == pre && outs.len() == 0,
        ActionV::SendResponse(nm) => post == pre && sent_message(
            outs,
            with_id(nm, slot.origin_id),
            slot.origin,
        ),
        ActionV::MessageTo(nm, dest) => {
            &&& post.udpseq == pre.udpseq
            &&& post.upstream == pre.upstream
            &&& post.requests == pre.requests.update(
                nm.head.id as int,
                ConnectionData {
                    origin: slot.origin,
                    origin_id: slot.origin_id,
                    upstream: dest,
                    upstream_id: nm.head.id,
                },
            )
            &&& sent_message(outs, nm, dest)
        },
    }
}

/// How the engine handles a whole inbound response: the slot the
/// message's id indexes is captured and cleared before anything else, so
/// a slot can answer at most once. A response whose source address or id
/// does not match the slot, or whose slot was never populated, is
/// silently dropped: the reflection/poisoning defence.
pub open spec fn response_dispatch(
    pre: ServerV,
    m: MessageV,
    src: SocketAddress,
    post: ServerV,
    outs: Seq<OutboundV>,
) -> bool {
    let slot = pre.requests[m.head.id as int];
    let cleared = ServerV {
        requests: pre.requests.update(m.head.id as int, spec_empty_slot()),
        ..pre
    };
    if src != slot.upstream || m.head.id != slot.upstream_id {
        post == cleared && outs.len() == 0
    } else if slot.origin == spec_null_address() {
        post == cleared && outs.len() == 0
    } else {
        response_step(cleared, m, slot, spec_response_action(m), post, outs)
    }
}

/// How the engine handles one parsed message: queries go through the
/// filter's request hook, responses through provenance validation and
/// the response hook.
pub open spec fn message_dispatch(
    pre: ServerV,
    m: MessageV,
    src: SocketAddress,
    post: ServerV,
    outs: Seq<OutboundV>,
) -> bool {
    if m.head.query {
        request_step(pre, m, src, spec_request_action(m), post, outs)
    } else {
        response_dispatch(pre, m, src, post, outs)
    }
}

/// How the engine handles one inbound datagram. Bytes that do not parse
/// get a minimal format-error response carrying the id recovered from
/// the first two bytes, or zero if fewer arrived, and the state is left
/// untouched.
pub open spec fn datagram_step(
    pre: ServerV,
    bytes: Seq<u8>,
    src: SocketAddress,
    post: ServerV,
    outs: Seq<OutboundV>,
) -> bool {
    match dec_message(bytes) {
        Some(m) => message_dispatch(pre, m, src, post, outs),
        None => {
            let id = if bytes.len() >= 2 {
                dec_u16(bytes, 0)
            } else {
                0
            };
            &&& post == pre
            &&& sent_message(
                outs,
                MessageV {
                    head: Header {
                        id,
                        query: false,
                        opcode: crate::enums::Opcode::StandardQuery,
                        authoritative: false,
                        truncated: false,
                        recursion_desired: false,
                        recursion_available: true,
                        authenticated_data: false,
                        checking_disabled: false,
                        response_code: ResponseCode::FormatError,
                    },
                    questions: Seq::empty(),
                    answers: Seq::empty(),
                    authority: Seq::empty(),
                    additional: Seq::empty(),
                    opt: None,
                },
                src,
            )
        },
    }
}

/// The forwarding engine's state: the id counter, the configured
/// upstream resolvers, the 65,536-slot correlation table indexed by the
/// forwarded id, and the filter.
pub struct Server {
    udpseq: u16,
    upstream: Vec<SocketAddress>,
    requests: Vec<ConnectionData>,
    filter: Filter,
}

/// Draws a value from the thread-local random generator.
///
/// Relies on `rand::random`: nothing can be promised of the value drawn.
pub assume_specification<T>[ rand::random::<T> ]() -> (r: T)
    where
        rand::distributions::Standard: rand::distributions::Distribution<T>,
;

impl View for Server {
    type V = ServerV;

    closed spec fn view(&self) -> ServerV {
        ServerV { udpseq: self.udpseq, upstream: self.upstream@, requests: self.requests@ }
    }
}

impl Server {
    /// Internal invariant: the table spans the full 16-bit id space, at
    /// least one upstream is configured, and every populated slot's
    /// recorded forwarded id equals its index.
    pub open spec fn wf(&self) -> bool {
        &&& self@.requests.len() == 65536
        &&& self@.upstream.len() >= 1
        &&& forall|i: int|
            0 <= i < 65536 && (#[trigger] self@.requests[i]).origin != spec_null_address()
                ==> self@.requests[i].upstream_id == i
    }

    /// A fresh engine over the given upstream resolvers: an empty
    /// correlation table and an id counter seeded from a random value.
    pub fn new(upstream: Vec<SocketAddress>) -> (r: Server)
        requires
            upstream@.len() >= 1,
        ensures
            r.wf(),
            r@.upstream == upstream@,
            forall|i: int| 0 <= i < 65536 ==> #[trigger] r@.requests[i] == spec_empty_slot(),
    {
        let seed: u16 = rand::random::<u16>();
        let mut requests: Vec<ConnectionData> = Vec::new();
        for k in 0..65536usize
            invariant
                requests@.len() == k,
                forall|i: int| 0 <= i < k ==> #[trigger] requests@[i] == spec_empty_slot(),
        {
            requests.push(ConnectionData::new());
        }
        Server { udpseq: seed, upstream, requests, filter: Filter::new() }
    }

    /// Advances the id counter and hands out the next forwarded id:
    /// wrap at 16 bits, then clamp into the range from 1024 up. The
    /// returned value doubles as the correlation-table slot index.
    pub fn udpseq_advance(&mut self) -> (id: u16)
        ensures
            id == spec_advance_id(old(self)@.udpseq),
            id >= 1024,
            final(self)@ == (ServerV { udpseq: id, ..old(self)@ }),
            old(self).wf() ==> final(self).wf(),
    {
        let s = self.udpseq.wrapping_add(1);
        if s < 1024 {
            self.udpseq = 1024;
        } else {
            self.udpseq = s;
        }
        self.udpseq
    }

    /// Picks an upstream resolver uniformly at random among those
    /// configured: no stickiness, no health checking.
    pub fn select_upstream(&self) -> (r: SocketAddress)
        requires
            self.wf(),
        ensures
            exists|i: int| 0 <= i < self@.upstream.len() && r == self@.upstream[i],
    {
        let raw: usize = rand::random::<usize>();
        let idx = raw % self.upstream.len();
        self.upstream[idx]
    }

    /// Records the correlation entry for a forwarded request in the slot
    /// its forwarded id indexes, and serializes the forwarded message.
    fn forward_request(
        &mut self,
        origin: SocketAddress,
        origin_id: u16,
        fwd: &Message,
        fwd_id: u16,
        upstream: SocketAddress,
        out: &mut Vec<Outbound>,
    )
        requires
            old(self).wf(),
            fwd.wf(),
            old(out)@.len() == 0,
        ensures
            final(self).wf(),
            final(self)@ == (ServerV {
                requests: old(self)@.requests.update(
                    fwd_id as int,
                    ConnectionData { origin, origin_id, upstream, upstream_id: fwd_id },
                ),
                ..old(self)@
            }),
            sent_message(outs_view(final(out)@), with_id(fwd@, fwd_id), upstream),
    {
        let entry = ConnectionData { origin, origin_id, upstream, upstream_id: fwd_id };
        self.requests.set(fwd_id as usize, entry);
        match fwd.serialize_with_id(fwd_id) {
            Ok(v) => {
                out.push(Outbound { data: v, dest: upstream });
                proof {
                    assert(outs_view(out@) =~= outs_view(old(out)@).push(
                        OutboundV { data: v@, dest: upstream },
                    ));
                }
            },
            Err(_) => (),
        }
        proof {
            assert forall|i: int|
                0 <= i < 65536 && (#[trigger] self@.requests[i]).origin != spec_null_address()
                    implies self@.requests[i].upstream_id == i by {
                if i != fwd_id as int {
                    assert(self@.requests[i] == old(self)@.requests[i]);
                }
            }
        }
    }

    /// Serializes a message under the given id and queues it for the
    /// given destination; a message that cannot stand on the wire is
    /// dropped whole.
    fn send_message_as(&self, msg: &Message, id: u16, dest: SocketAddress, out: &mut Vec<Outbound>)
        requires
            msg.wf(),
            old(out)@.len() == 0,
        ensures
            sent_message(outs_view(final(out)@), with_id(msg@, id), dest),
    {
        match msg.serialize_with_id(id) {
            Ok(v) => {
                out.push(Outbound { data: v, dest });
                proof {
                    assert(outs_view(out@) =~= outs_view(old(out)@).push(
                        OutboundV { data: v@, dest },
                    ));
                }
            },
            Err(_) => (),
        }
    }

    /// Acts on the filter's disposition for a query from `origin`.
    pub fn handle_request_action(
        &mut self,
        msg: &Message,
        origin: SocketAddress,
        action: Action,
    ) -> (out: Vec<Outbound>)
        requires
            old(self).wf(),
            msg.wf(),
            action.wf(),
        ensures
            final(self).wf(),
            request_step(old(self)@, msg@, origin, action@, final(self)@, outs_view(out@)),
    {
        let mut out: Vec<Outbound> = Vec::new();
        match action {
            Action::Pass => {
                let nid = self.udpseq_advance();
                let upstream = self.select_upstream();
                let origin_id = msg.id();
                self.forward_request(origin, origin_id, msg, nid, upstream, &mut out);
                proof {
                    let i = choose|i: int|
                        0 <= i < old(self)@.upstream.len() && upstream == old(
                            self,
                        )@.upstream[i];
                    assert(0 <= i < old(self)@.upstream.len() && old(self)@.upstream[i]
                        == upstream);
                }
            },
            Action::PassMangled(newm) => {
                let nid = self.udpseq_advance();
                let upstream = self.select_upstream();
                self.forward_request(origin, nid, &newm, nid, upstream, &mut out);
                proof {
                    let i = choose|i: int|
                        0 <= i < old(self)@.upstream.len() && upstream == old(
                            self,
                        )@.upstream[i];
                    assert(0 <= i < old(self)@.upstream.len() && old(self)@.upstream[i]
                        == upstream);
                }
            },
            Action::SendServFail => {
                let mut resp = Message::from_header(msg.header());
                resp.set_recursion_available(true);
                resp.set_response_code(ResponseCode::ServerFailure);
                let rid = resp.id();
                self.send_message_as(&resp, rid, origin, &mut out);
                proof {
                    assert(with_id(resp@, rid) == error_reply(
                        msg@.head,
                        ResponseCode::ServerFailure,
                    ));
                }
            },
            Action::SendNxDomain => {
                let mut resp = Message::from_header(msg.header());
                resp.set_recursion_available(true);
                resp.set_response_code(ResponseCode::NameError);
                let rid = resp.id();
                self.send_message_as(&resp, rid, origin, &mut out);
                proof {
                    assert(with_id(resp@, rid) == error_reply(msg@.head, ResponseCode::NameError));
                }
            },
            Action::SendRefused => {
                let mut resp = Message::from_header(msg.header());
                resp.set_recursion_available(true);
                resp.set_response_code(ResponseCode::Refused);
                let rid = resp.id();
                self.send_message_as(&resp, rid, origin, &mut out);
                proof {
                    assert(with_id(resp@, rid) == error_reply(msg@.head, ResponseCode::Refused));
                }
            },
            Action::Nop => (),
            Action::SendResponse(newm) => {
                let rid = newm.id();
                self.send_message_as(&newm, rid, origin, &mut out);
                proof {
                    assert(with_id(newm@, rid) == newm@);
                }
            },
            Action::MessageTo(newm, dest) => {
                let origin_id = msg.id();
                let nid = newm.id();
                self.forward_request(origin, origin_id, &newm, nid, dest, &mut out);
                proof {
                    assert(with_id(newm@, nid) == newm@);
                }
            },
        }
        out
    }

    /// Consults the filter for an inbound query and acts on its
    /// disposition.
    pub fn process_request(&mut self, msg: &Message, origin: SocketAddress) -> (out: Vec<Outbound>)
        requires
            old(self).wf(),
            msg.wf(),
        ensures
            final(self).wf(),
            request_step(
                old(self)@,
                msg@,
                origin,
                spec_request_action(msg@),
                final(self)@,
                outs_view(out@),
            ),
    {
        let action = self.filter.filter_request(msg, origin);
        self.handle_request_action(msg, origin, action)
    }

    /// Acts on the filter's disposition for a validated response whose
    /// correlation slot recorded `origin` and `origin_id`.
    pub fn handle_response_action(
        &mut self,
        msg: &Message,
        origin: SocketAddress,
        origin_id: u16,
        action: Action,
    ) -> (out: Vec<Outbound>)
        requires
            old(self).wf(),
            msg.wf(),
            action.wf(),
        ensures
            final(self).wf(),
            forall|slot: ConnectionData|
                slot.origin == origin && slot.origin_id == origin_id ==> #[trigger] response_step(
                    old(self)@,
                    msg@,
                    slot,
                    action@,
                    final(self)@,
                    outs_view(out@),
                ),
    {
        let mut out: Vec<Outbound> = Vec::new();
        match action {
            Action::Pass => {
                self.send_message_as(msg, origin_id, origin, &mut out);
            },
            Action::PassMangled(newm) => {
                self.send_message_as(&newm, origin_id, origin, &mut out);
            },
            Action::SendServFail => {
                let mut resp = Message::from_header(msg.header());
                resp.set_response_code(ResponseCode::ServerFailure);
                let rid = resp.id();
                self.send_message_as(&resp, rid, origin, &mut out);
                proof {
                    assert(with_id(resp@, rid) == error_reply_raw(
                        msg@.head,
                        ResponseCode::ServerFailure,
                    ));
                }
            },
            Action::SendNxDomain => {
                let mut resp = Message::from_header(msg.header());
                resp.set_response_code(ResponseCode::NameError);
                let rid = resp.id();
                self.send_message_as(&resp, rid, origin, &mut out);
                proof {
                    assert(with_id(resp@, rid) == error_reply_raw(
                        msg@.head,
                        ResponseCode::NameError,
                    ));
                }
            },
            Action::SendRefused => {
                let mut resp = Message::from_header(msg.header());
                resp.set_response_code(ResponseCode::Refused);
                let rid = resp.id();
                self.send_message_as(&resp, rid, origin, &mut out);
                proof {
                    assert(with_id(resp@, rid) == error_reply_raw(
                        msg@.head,
                        ResponseCode::Refused,
                    ));
                }
            },
            Action::Nop => (),
            Action::SendResponse(newm) => {
                self.send_message_as(&newm, origin_id, origin, &mut out);
            },
            Action::MessageTo(newm, dest) => {
                let nid = newm.id();
                self.forward_request(origin, origin_id, &newm, nid, dest, &mut out);
                proof {
                    assert(with_id(newm@, nid) == newm@);
                }
            },
        }
        out
    }

    /// Handles an inbound response: captures and clears the correlation
    /// slot its id indexes, validates that the response really came from
    /// the upstream the slot records under the id it records, drops it
    /// silently otherwise, and consults the filter's response hook for
    /// the rest.
    pub fn process_response(&mut self, msg: &Message, src: SocketAddress) -> (out: Vec<Outbound>)
        requires
            old(self).wf(),
            msg.wf(),
        ensures
            final(self).wf(),
            response_dispatch(old(self)@, msg@, src, final(self)@, outs_view(out@)),
    {
        let id = msg.id();
        let idx = id as usize;
        let data = self.requests[idx];
        self.requests.set(idx, ConnectionData::new());
        proof {
            assert forall|i: int|
                0 <= i < 65536 && (#[trigger] self@.requests[i]).origin != spec_null_address()
                    implies self@.requests[i].upstream_id == i by {
                if i != idx as int {
                    assert(self@.requests[i] == old(self)@.requests[i]);
                }
            }
        }
        if !(src == data.upstream) || id != data.upstream_id {
            // source address or id mismatch: potential reflection attack
            return Vec::new();
        }
        if data.origin.is_null() {
            // stale or never-populated slot: bogus packet
            return Vec::new();
        }
        let action = self.filter.filter_response(msg, data.origin, data.origin_id, data.upstream);
        let out = self.handle_response_action(msg, data.origin, data.origin_id, action);
        proof {
            let slot = old(self)@.requests[msg@.head.id as int];
            assert(slot.origin == data.origin && slot.origin_id == data.origin_id);
        }
        out
    }

    /// Dispatches one parsed message: queries down the request path,
    /// responses down the response path.
    pub fn process_message(&mut self, msg: &Message, addr: SocketAddress) -> (out: Vec<Outbound>)
        requires
            old(self).wf(),
            msg.wf(),
        ensures
            final(self).wf(),
            message_dispatch(old(self)@, msg@, addr, final(self)@, outs_view(out@)),
    {
        if msg.is_request() {
            self.process_request(msg, addr)
        } else {
            self.process_response(msg, addr)
        }
    }

    /// Handles one inbound datagram from `src`: parses it and dispatches
    /// the message, or answers unparseable bytes with a minimal
    /// format-error response carrying the id recovered from the first
    /// two bytes. This path never fails, however malformed the input.
    pub fn process_datagram(&mut self, data: &[u8], src: SocketAddress) -> (out: Vec<Outbound>)
        requires
            old(self).wf(),
        ensures
            final(self).wf(),
            datagram_step(old(self)@, data@, src, final(self)@, outs_view(out@)),
    {
        match Message::parse(data) {
            Ok(msg) => self.process_message(&msg, src),
            Err(_) => {
                let mut id: u16 = 0;
                if data.len() >= 2 {
                    id = (data[0] as u16) * 256 + (data[1] as u16);
                }
                let err = Message::new_error(id, ResponseCode::FormatError);
                let mut out: Vec<Outbound> = Vec::new();
                match err.serialize() {
                    Ok(v) => {
                        out.push(Outbound { data: v, dest: src });
                        proof {
                            assert(outs_view(out@) =~= Seq::<OutboundV>::empty().push(
                                OutboundV { data: v@, dest: src },
                            ));
                        }
                    },
                    Err(_) => {
                        // an empty error response always fits the wire
                        assert(false);
                    },
                }
                out
            },
        }
    }
}

} // verus!
