//! A UDP DNS forwarding proxy library: a wire-format codec for DNS messages
//! and a forwarding engine that correlates in-flight requests with their
//! responses while rejecting off-path response injection.

use vstd::prelude::*;

pub mod addr;
pub mod enums;
pub mod errors;
pub mod filter;
pub mod message;
pub mod name;
pub mod question;
pub mod roundtrip;
pub mod rr;
pub mod parse;
pub mod server;
pub mod wire;

pub use addr::SocketAddress;
pub use enums::{Class, Opcode, ResponseCode, Type};
pub use errors::DnsError;
pub use filter::Filter;
pub use message::{Header, Message};
pub use name::{Label, Name};
pub use question::Question;
pub use rr::{Ipv4Address, Ipv6Address, MxRecord, OptRecord, RRData, ResourceRecord, SoaRecord,
    SrvRecord};
pub use server::{Outbound, Server};

verus! {

/// The filter's disposition for one message: what the engine is to do
/// with it. Exactly one is produced per filter invocation, and the
/// engine's behaviour is fully determined by which one it receives.
pub enum Action {
    /// forward the message as usual
    Pass,
    /// forward the given replacement instead
    PassMangled(Message),
    /// answer the origin with a server-failure response, no upstream contact
    SendServFail,
    /// answer the origin with a name-error response, no upstream contact
    SendNxDomain,
    /// answer the origin with a refused response, no upstream contact
    SendRefused,
    /// do nothing
    Nop,
    /// send the given message verbatim to the origin
    SendResponse(Message),
    /// forward the given message to the given destination
    MessageTo(Message, SocketAddress),
}

/// The mathematical value of a disposition.
pub enum ActionV {
    Pass,
    PassMangled(message::MessageV),
    SendServFail,
    SendNxDomain,
    SendRefused,
    Nop,
    SendResponse(message::MessageV),
    MessageTo(message::MessageV, SocketAddress),
}

impl View for Action {
    type V = ActionV;

    open spec fn view(&self) -> ActionV {
        match self {
            Action::Pass => ActionV::Pass,
            Action::PassMangled(m) => ActionV::PassMangled(m@),
            Action::SendServFail => ActionV::SendServFail,
            Action::SendNxDomain => ActionV::SendNxDomain,
            Action::SendRefused => ActionV::SendRefused,
            Action::Nop => ActionV::Nop,
            Action::SendResponse(m) => ActionV::SendResponse(m@),
            Action::MessageTo(m, a) => ActionV::MessageTo(m@, *a),
        }
    }
}

impl Action {
    /// Internal invariant: any message carried inside is well-formed.
    pub open spec fn wf(&self) -> bool {
        match self {
            Action::PassMangled(m) => m.wf(),
            Action::SendResponse(m) => m.wf(),
            Action::MessageTo(m, _) => m.wf(),
            _ => true,
        }
    }
}

} // verus!
