//! The filtering policy consulted by the engine for every inbound query
//! and every validated response. This policy refuses TXT queries and
//! passes everything else through unchanged.

use vstd::prelude::*;

use crate::addr::SocketAddress;
use crate::enums::Type;
use crate::message::{Message, MessageV};
use crate::{Action, ActionV};

verus! {

/// Whether some question of the message asks for a TXT record.
pub open spec fn has_txt_question(m: MessageV) -> bool {
    exists|i: int| 0 <= i < m.questions.len() && (#[trigger] m.questions[i]).qtype == Type::TXT
}

/// The disposition this filter takes on a query.
pub open spec fn spec_request_action(m: MessageV) -> ActionV {
    if has_txt_question(m) {
        ActionV::SendRefused
    } else {
        ActionV::Pass
    }
}

/// The disposition this filter takes on a response.
pub open spec fn spec_response_action(m: MessageV) -> ActionV {
    ActionV::Pass
}

/// The filtering policy: stateless here.
pub struct Filter {}

impl Filter {
    /// A fresh filter.
    pub fn new() -> (r: Self) {
        Filter {  }
    }

    /// The disposition for an inbound query: refuse it when any question
    /// asks for a TXT record, pass it otherwise.
    pub fn filter_request(&mut self, msg: &Message, origin: SocketAddress) -> (r: Action)
        ensures
            r@ == spec_request_action(msg@),
            r.wf(),
    {
        let n = msg.num_questions();
        for i in 0..n
            invariant
                n == msg@.questions.len(),
                forall|j: int| 0 <= j < i ==> (#[trigger] msg@.questions[j]).qtype != Type::TXT,
        {
            let q = match msg.get_question(i) {
                Some(q) => q,
                None => {
                    return Action::Pass;
                },
            };
            if matches!(q.qtype, Type::TXT) {
                return Action::SendRefused;
            }
        }
        Action::Pass
    }

    /// The disposition for a validated response: always passed through.
    pub fn filter_response(
        &mut self,
        msg: &Message,
        origin: SocketAddress,
        origin_id: u16,
        upstream: SocketAddress,
    ) -> (r: Action)
        ensures
            r@ == spec_response_action(msg@),
            r.wf(),
    {
        Action::Pass
    }
}

} // verus!
