//! The DNS message header and the full message.

use vstd::prelude::*;

use crate::enums::{Opcode, ResponseCode};
use crate::errors::DnsError;
use crate::question::{Question, QuestionV};
use crate::rr::{OptRecord, OptRecordV, ResourceRecord, ResourceRecordV};

verus! {

/// Protocol metadata: the 16-bit id, the query/response flag, the opcode,
/// five single-bit flags, and the response code. On the wire these pack
/// into the second 16-bit word of the header.
#[derive(Debug, PartialEq, Eq, Structural, Clone, Copy)]
pub struct Header {
    pub id: u16,
    pub query: bool,
    pub opcode: Opcode,
    pub authoritative: bool,
    pub truncated: bool,
    pub recursion_desired: bool,
    pub recursion_available: bool,
    pub authenticated_data: bool,
    pub checking_disabled: bool,
    pub response_code: ResponseCode,
}

/// The value sequences of a question section.
pub open spec fn questions_view(v: Seq<Question>) -> Seq<QuestionV> {
    Seq::new(v.len(), |i: int| v[i]@)
}

/// The value sequences of a record section.
pub open spec fn records_view(v: Seq<ResourceRecord>) -> Seq<ResourceRecordV> {
    Seq::new(v.len(), |i: int| v[i]@)
}

/// The mathematical value of a full message.
pub struct MessageV {
    pub head: Header,
    pub questions: Seq<QuestionV>,
    pub answers: Seq<ResourceRecordV>,
    pub authority: Seq<ResourceRecordV>,
    pub additional: Seq<ResourceRecordV>,
    pub opt: Option<OptRecordV>,
}

/// The same message value under another transaction id.
pub open spec fn with_id(m: MessageV, id: u16) -> MessageV {
    MessageV { head: Header { id, ..m.head }, ..m }
}

/// A full DNS message: a header, the four sections, and at most one EDNS0
/// pseudo-record carried beside the additional section but counted as one
/// additional record on the wire.
#[derive(Clone)]
pub struct Message {
    head: Header,
    questions: Vec<Question>,
    answers: Vec<ResourceRecord>,
    authority: Vec<ResourceRecord>,
    additional: Vec<ResourceRecord>,
    opt: Option<OptRecord>,
}

impl View for Message {
    type V = MessageV;

    closed spec fn view(&self) -> MessageV {
        MessageV {
            head: self.head,
            questions: questions_view(self.questions@),
            answers: records_view(self.answers@),
            authority: records_view(self.authority@),
            additional: records_view(self.additional@),
            opt: match self.opt {
                Some(o) => Some(o@),
                None => None,
            },
        }
    }
}

impl Message {
    /// Internal invariant: every name in every section is well-formed.
    pub closed spec fn wf(&self) -> bool {
        &&& forall|i: int|
            0 <= i < self.questions@.len() ==> (#[trigger] self.questions@[i]).wf()
        &&& forall|i: int| 0 <= i < self.answers@.len() ==> (#[trigger] self.answers@[i]).wf()
        &&& forall|i: int| 0 <= i < self.authority@.len() ==> (#[trigger] self.authority@[i]).wf()
        &&& forall|i: int|
            0 <= i < self.additional@.len() ==> (#[trigger] self.additional@[i]).wf()
        &&& match self.opt {
            Some(o) => o.data.wf(),
            None => true,
        }
    }

    /// Builds a message from its parts.
    pub fn from_parts(
        head: Header,
        questions: Vec<Question>,
        answers: Vec<ResourceRecord>,
        authority: Vec<ResourceRecord>,
        additional: Vec<ResourceRecord>,
        opt: Option<OptRecord>,
    ) -> (r: Message)
        requires
            forall|i: int| 0 <= i < questions@.len() ==> (#[trigger] questions@[i]).wf(),
            forall|i: int| 0 <= i < answers@.len() ==> (#[trigger] answers@[i]).wf(),
            forall|i: int| 0 <= i < authority@.len() ==> (#[trigger] authority@[i]).wf(),
            forall|i: int| 0 <= i < additional@.len() ==> (#[trigger] additional@[i]).wf(),
            match opt {
                Some(o) => o.data.wf(),
                None => true,
            },
        ensures
            r.wf(),
            r@ == (MessageV {
                head,
                questions: questions_view(questions@),
                answers: records_view(answers@),
                authority: records_view(authority@),
                additional: records_view(additional@),
                opt: match opt {
                    Some(o) => Some(o@),
                    None => None,
                },
            }),
    {
        Message { head, questions, answers, authority, additional, opt }
    }

    /// A message with the given header and no sections.
    pub fn from_header(h: &Header) -> (r: Self)
        ensures
            r.wf(),
            r@ == (MessageV {
                head: *h,
                questions: Seq::empty(),
                answers: Seq::empty(),
                authority: Seq::empty(),
                additional: Seq::empty(),
                opt: None,
            }),
    {
        let r = Message {
            head: *h,
            questions: Vec::new(),
            answers: Vec::new(),
            authority: Vec::new(),
            additional: Vec::new(),
            opt: None,
        };
        proof {
            assert(r@.questions =~= Seq::<QuestionV>::empty());
            assert(r@.answers =~= Seq::<ResourceRecordV>::empty());
            assert(r@.authority =~= Seq::<ResourceRecordV>::empty());
            assert(r@.additional =~= Seq::<ResourceRecordV>::empty());
        }
        r
    }

    /// A fresh query: recursion desired, nothing else set.
    pub fn new_query(id: u16) -> (r: Self)
        ensures
            r.wf(),
            r@ == (MessageV {
                head: Header {
                    id,
                    query: true,
                    opcode: Opcode::StandardQuery,
                    authoritative: false,
                    truncated: false,
                    recursion_desired: true,
                    recursion_available: false,
                    authenticated_data: false,
                    checking_disabled: false,
                    response_code: ResponseCode::NoError,
                },
                questions: Seq::empty(),
                answers: Seq::empty(),
                authority: Seq::empty(),
                additional: Seq::empty(),
                opt: None,
            }),
    {
        Self::from_header(
            &Header {
                id,
                query: true,
                opcode: Opcode::StandardQuery,
                authoritative: false,
                truncated: false,
                recursion_desired: true,
                recursion_available: false,
                authenticated_data: false,
                checking_disabled: false,
                response_code: ResponseCode::NoError,
            },
        )
    }

    /// A synthetic error response: response with the given id and
    /// response code, recursion available.
    pub fn new_error(id: u16, rc: ResponseCode) -> (r: Self)
        ensures
            r.wf(),
            r@ == (MessageV {
                head: Header {
                    id,
                    query: false,
                    opcode: Opcode::StandardQuery,
                    authoritative: false,
                    truncated: false,
                    recursion_desired: false,
                    recursion_available: true,
                    authenticated_data: false,
                    checking_disabled: false,
                    response_code: rc,
                },
                questions: Seq::empty(),
                answers: Seq::empty(),
                authority: Seq::empty(),
                additional: Seq::empty(),
                opt: None,
            }),
    {
        Self::from_header(
            &Header {
                id,
                query: false,
                opcode: Opcode::StandardQuery,
                authoritative: false,
                truncated: false,
                recursion_desired: false,
                recursion_available: true,
                authenticated_data: false,
                checking_disabled: false,
                response_code: rc,
            },
        )
    }

    /// A fresh response skeleton with the given id.
    pub fn new_response(id: u16) -> (r: Self)
        ensures
            r.wf(),
            r@ == (MessageV {
                head: Header {
                    id,
                    query: true,
                    opcode: Opcode::StandardQuery,
                    authoritative: false,
                    truncated: false,
                    recursion_desired: false,
                    recursion_available: true,
                    authenticated_data: false,
                    checking_disabled: false,
                    response_code: ResponseCode::NoError,
                },
                questions: Seq::empty(),
                answers: Seq::empty(),
                authority: Seq::empty(),
                additional: Seq::empty(),
                opt: None,
            }),
    {
        Self::from_header(
            &Header {
                id,
                query: true,
                opcode: Opcode::StandardQuery,
                authoritative: false,
                truncated: false,
                recursion_desired: false,
                recursion_available: true,
                authenticated_data: false,
                checking_disabled: false,
                response_code: ResponseCode::NoError,
            },
        )
    }

    /// The message's header.
    pub fn header(&self) -> (r: &Header)
        ensures
            *r == self@.head,
    {
        &self.head
    }

    /// The message's transaction id.
    pub fn id(&self) -> (r: u16)
        ensures
            r == self@.head.id,
    {
        self.head.id
    }

    /// Replaces the transaction id; nothing else changes.
    pub fn set_id(&mut self, id: u16)
        ensures
            final(self)@ == (MessageV { head: Header { id, ..old(self)@.head }, ..old(self)@ }),
            final(self).wf() == old(self).wf(),
    {
        self.head.id = id;
    }

    /// Sets the recursion-available flag; nothing else changes.
    pub fn set_recursion_available(&mut self, v: bool)
        ensures
            final(self)@ == (MessageV {
                head: Header { recursion_available: v, ..old(self)@.head },
                ..old(self)@
            }),
            final(self).wf() == old(self).wf(),
    {
        self.head.recursion_available = v;
    }

    /// Sets the response code; nothing else changes.
    pub fn set_response_code(&mut self, rc: ResponseCode)
        ensures
            final(self)@ == (MessageV {
                head: Header { response_code: rc, ..old(self)@.head },
                ..old(self)@
            }),
            final(self).wf() == old(self).wf(),
    {
        self.head.response_code = rc;
    }

    /// Whether the message is a query.
    pub fn is_request(&self) -> (r: bool)
        ensures
            r == self@.head.query,
    {
        self.head.query
    }

    /// Whether the message is a response.
    pub fn is_response(&self) -> (r: bool)
        ensures
            r == !self@.head.query,
    {
        !self.head.query
    }

    /// The question at an index, if any.
    pub fn get_question(&self, index: usize) -> (r: Option<&Question>)
        ensures
            index < self@.questions.len() ==> (r matches Some(q) && q@ == self@.questions[index as int]),
            index >= self@.questions.len() ==> r is None,
    {
        if index < self.questions.len() {
            Some(&self.questions[index])
        } else {
            None
        }
    }

    /// The answer record at an index, if any.
    pub fn get_answer(&self, index: usize) -> (r: Option<&ResourceRecord>)
        ensures
            index < self@.answers.len() ==> (r matches Some(a) && a@ == self@.answers[index as int]),
            index >= self@.answers.len() ==> r is None,
    {
        if index < self.answers.len() {
            Some(&self.answers[index])
        } else {
            None
        }
    }

    /// The authority record at an index, if any.
    pub fn get_authority(&self, index: usize) -> (r: Option<&ResourceRecord>)
        ensures
            index < self@.authority.len() ==> (r matches Some(a) && a@ == self@.authority[index as int]),
            index >= self@.authority.len() ==> r is None,
    {
        if index < self.authority.len() {
            Some(&self.authority[index])
        } else {
            None
        }
    }

    /// The additional record at an index, if any.
    pub fn get_additional(&self, index: usize) -> (r: Option<&ResourceRecord>)
        ensures
            index < self@.additional.len() ==> (r matches Some(a) && a@ == self@.additional[index as int]),
            index >= self@.additional.len() ==> r is None,
    {
        if index < self.additional.len() {
            Some(&self.additional[index])
        } else {
            None
        }
    }

    /// The EDNS0 pseudo-record, if the message carries one.
    pub fn get_opt(&self) -> (r: Option<&OptRecord>)
        ensures
            match r {
                Some(o) => self@.opt == Some(o@),
                None => self@.opt is None,
            },
    {
        match &self.opt {
            Some(o) => Some(o),
            None => None,
        }
    }

    /// Attaches or replaces the EDNS0 pseudo-record.
    pub fn set_opt(&mut self, o: OptRecord)
        requires
            o.data.wf(),
        ensures
            final(self)@ == (MessageV { opt: Some(o@), ..old(self)@ }),
            old(self).wf() ==> final(self).wf(),
    {
        self.opt = Some(o);
    }

    /// Appends a question.
    pub fn add_question(&mut self, q: Question)
        requires
            q.wf(),
        ensures
            final(self)@ == (MessageV {
                questions: old(self)@.questions.push(q@),
                ..old(self)@
            }),
            old(self).wf() ==> final(self).wf(),
    {
        self.questions.push(q);
        proof {
            assert(self@.questions =~= old(self)@.questions.push(q@));
            if old(self).wf() {
                assert forall|i: int|
                    0 <= i < self.questions@.len() implies (#[trigger] self.questions@[i]).wf() by {
                    if i < old(self).questions@.len() {
                        assert(self.questions@[i] == old(self).questions@[i]);
                    } else {
                        assert(self.questions@[i] == q);
                    }
                }
            }
        }
    }

    /// Appends an answer record.
    pub fn add_answer(&mut self, rr: ResourceRecord)
        requires
            rr.wf(),
        ensures
            final(self)@ == (MessageV { answers: old(self)@.answers.push(rr@), ..old(self)@ }),
            old(self).wf() ==> final(self).wf(),
    {
        self.answers.push(rr);
        proof {
            assert(self@.answers =~= old(self)@.answers.push(rr@));
            if old(self).wf() {
                assert forall|i: int|
                    0 <= i < self.answers@.len() implies (#[trigger] self.answers@[i]).wf() by {
                    if i < old(self).answers@.len() {
                        assert(self.answers@[i] == old(self).answers@[i]);
                    } else {
                        assert(self.answers@[i] == rr);
                    }
                }
            }
        }
    }

    /// Appends an authority record.
    pub fn add_authority(&mut self, rr: ResourceRecord)
        requires
            rr.wf(),
        ensures
            final(self)@ == (MessageV {
                authority: old(self)@.authority.push(rr@),
                ..old(self)@
            }),
            old(self).wf() ==> final(self).wf(),
    {
        self.authority.push(rr);
        proof {
            assert(self@.authority =~= old(self)@.authority.push(rr@));
            if old(self).wf() {
                assert forall|i: int|
                    0 <= i < self.authority@.len() implies (#[trigger] self.authority@[i]).wf() by {
                    if i < old(self).authority@.len() {
                        assert(self.authority@[i] == old(self).authority@[i]);
                    } else {
                        assert(self.authority@[i] == rr);
                    }
                }
            }
        }
    }

    /// Appends an additional record.
    pub fn add_additional(&mut self, rr: ResourceRecord)
        requires
            rr.wf(),
        ensures
            final(self)@ == (MessageV {
                additional: old(self)@.additional.push(rr@),
                ..old(self)@
            }),
            old(self).wf() ==> final(self).wf(),
    {
        self.additional.push(rr);
        proof {
            assert(self@.additional =~= old(self)@.additional.push(rr@));
            if old(self).wf() {
                assert forall|i: int|
                    0 <= i < self.additional@.len() implies (#[trigger] self.additional@[i]).wf() by {
                    if i < old(self).additional@.len() {
                        assert(self.additional@[i] == old(self).additional@[i]);
                    } else {
                        assert(self.additional@[i] == rr);
                    }
                }
            }
        }
    }

    /// Removes and returns the question at an index.
    pub fn remove_question(&mut self, index: usize) -> (r: Question)
        requires
            index < old(self)@.questions.len(),
        ensures
            r@ == old(self)@.questions[index as int],
            final(self)@ == (MessageV {
                questions: old(self)@.questions.remove(index as int),
                ..old(self)@
            }),
            old(self).wf() ==> final(self).wf(),
    {
        let r = self.questions.remove(index);
        proof {
            assert(self@.questions =~= old(self)@.questions.remove(index as int));
            if old(self).wf() {
                {
                    assert forall|i: int|
                        0 <= i < self.questions@.len() implies (
                    #[trigger] self.questions@[i]).wf() by {
                        if i < index {
                            assert(self.questions@[i] == old(self).questions@[i]);
                        } else {
                            assert(self.questions@[i] == old(self).questions@[i + 1]);
                        }
                    }
                }
            }
        }
        r
    }

    /// Removes and returns the answer record at an index.
    pub fn remove_answer(&mut self, index: usize) -> (r: ResourceRecord)
        requires
            index < old(self)@.answers.len(),
        ensures
            r@ == old(self)@.answers[index as int],
            final(self)@ == (MessageV {
                answers: old(self)@.answers.remove(index as int),
                ..old(self)@
            }),
            old(self).wf() ==> final(self).wf(),
    {
        let r = self.answers.remove(index);
        proof {
            assert(self@.answers =~= old(self)@.answers.remove(index as int));
            if old(self).wf() {
                {
                    assert forall|i: int|
                        0 <= i < self.answers@.len() implies (
                    #[trigger] self.answers@[i]).wf() by {
                        if i < index {
                            assert(self.answers@[i] == old(self).answers@[i]);
                        } else {
                            assert(self.answers@[i] == old(self).answers@[i + 1]);
                        }
                    }
                }
            }
        }
        r
    }

    /// Removes and returns the authority record at an index.
    pub fn remove_authority(&mut self, index: usize) -> (r: ResourceRecord)
        requires
            index < old(self)@.authority.len(),
        ensures
            r@ == old(self)@.authority[index as int],
            final(self)@ == (MessageV {
                authority: old(self)@.authority.remove(index as int),
                ..old(self)@
            }),
            old(self).wf() ==> final(self).wf(),
    {
        let r = self.authority.remove(index);
        proof {
            assert(self@.authority =~= old(self)@.authority.remove(index as int));
            if old(self).wf() {
                {
                    assert forall|i: int|
                        0 <= i < self.authority@.len() implies (
                    #[trigger] self.authority@[i]).wf() by {
                        if i < index {
                            assert(self.authority@[i] == old(self).authority@[i]);
                        } else {
                            assert(self.authority@[i] == old(self).authority@[i + 1]);
                        }
                    }
                }
            }
        }
        r
    }

    /// Removes and returns the additional record at an index.
    pub fn remove_additional(&mut self, index: usize) -> (r: ResourceRecord)
        requires
            index < old(self)@.additional.len(),
        ensures
            r@ == old(self)@.additional[index as int],
            final(self)@ == (MessageV {
                additional: old(self)@.additional.remove(index as int),
                ..old(self)@
            }),
            old(self).wf() ==> final(self).wf(),
    {
        let r = self.additional.remove(index);
        proof {
            assert(self@.additional =~= old(self)@.additional.remove(index as int));
            if old(self).wf() {
                {
                    assert forall|i: int|
                        0 <= i < self.additional@.len() implies (
                    #[trigger] self.additional@[i]).wf() by {
                        if i < index {
                            assert(self.additional@[i] == old(self).additional@[i]);
                        } else {
                            assert(self.additional@[i] == old(self).additional@[i + 1]);
                        }
                    }
                }
            }
        }
        r
    }

    /// Decodes a datagram into a message. Succeeds exactly when the
    /// bytes form a well-formed message whose header counts equal the
    /// section lengths, with the EDNS0 pseudo-record counted as one
    /// additional record, and with nothing left over; the decoded
    /// message is then exactly what the wire model yields.
    pub fn parse(data: &[u8]) -> (r: Result<Message, DnsError>)
        ensures
            r matches Ok(m) ==> crate::wire::dec_message(data@) == Some(m@) && m.wf(),
            r is Err <==> crate::wire::dec_message(data@) is None,
            r matches Err(e) ==> e == DnsError::Parse,
    {
        crate::parse::parse_message(data)
    }

    /// The message's wire form under a caller-chosen header: the 12-byte
    /// header with the packed flags word and the four section counts,
    /// then each section's elements in order, then the EDNS0
    /// pseudo-record if present.
    #[verifier::rlimit(100)]
    fn serialize_with_header(&self, head: Header) -> (r: Result<Vec<u8>, DnsError>)
        requires
            self.wf(),
        ensures
            r is Ok <==> crate::wire::wf_message_wire(self@),
            r matches Ok(v) ==> v@ == crate::wire::enc_message(
                MessageV { head, ..self@ },
            ),
            r matches Err(e) ==> e == DnsError::TooLong,
    {
        let ghost mv = MessageV { head, ..self@ };
        if self.questions.len() > 65535 {
            return Err(DnsError::TooLong);
        }
        if self.answers.len() > 65535 {
            return Err(DnsError::TooLong);
        }
        if self.authority.len() > 65535 {
            return Err(DnsError::TooLong);
        }
        let opt_count: usize = match &self.opt {
            Some(_) => 1,
            None => 0,
        };
        if self.additional.len() > 65535 - opt_count {
            proof {
                assert(crate::wire::additional_count(self@) > 65535);
            }
            return Err(DnsError::TooLong);
        }
        let mut out: Vec<u8> = Vec::new();
        let ghost empty: Seq<u8> = out@;
        proof {
            assert(empty =~= Seq::<u8>::empty());
        }
        crate::wire::push_u16(&mut out, head.id);
        let mut flags: u16 = 0;
        if !head.query {
            flags = flags + 32768;
        }
        proof {
            assert(crate::enums::spec_opcode_code(head.opcode) <= 3);
            assert(crate::enums::spec_rcode_code(head.response_code) <= 6);
        }
        flags = flags + head.opcode.code() * 2048;
        if head.authoritative {
            flags = flags + 1024;
        }
        if head.truncated {
            flags = flags + 512;
        }
        if head.recursion_desired {
            flags = flags + 256;
        }
        if head.recursion_available {
            flags = flags + 128;
        }
        flags = flags + head.response_code.code();
        proof {
            assert(flags == crate::wire::enc_flags(head));
        }
        crate::wire::push_u16(&mut out, flags);
        crate::wire::push_u16(&mut out, self.questions.len() as u16);
        crate::wire::push_u16(&mut out, self.answers.len() as u16);
        crate::wire::push_u16(&mut out, self.authority.len() as u16);
        crate::wire::push_u16(&mut out, (self.additional.len() + opt_count) as u16);
        let ghost header_bytes: Seq<u8> = out@;
        let qn = self.questions.len();
        for i in 0..qn
            invariant
                qn == self.questions@.len(),
                self.wf(),
                out@ == header_bytes + crate::wire::enc_questions(
                    questions_view(self.questions@).subrange(0, i as int),
                ),
                forall|j: int|
                    0 <= j < i ==> crate::wire::wf_question_wire(
                        #[trigger] questions_view(self.questions@)[j],
                    ),
        {
            match self.questions[i].serialize(&mut out) {
                Ok(()) => (),
                Err(_) => {
                    proof {
                        assert(!crate::wire::wf_question_wire(self@.questions[i as int]));
                    }
                    return Err(DnsError::TooLong);
                },
            }
            proof {
                let qv = questions_view(self.questions@);
                let sub = qv.subrange(0, i + 1);
                crate::wire::lemma_enc_questions_snoc(sub);
                assert(sub.drop_last() =~= qv.subrange(0, i as int));
                assert(sub.last() == qv[i as int]);
                assert(out@ =~= header_bytes + crate::wire::enc_questions(sub));
            }
        }
        proof {
            assert(questions_view(self.questions@).subrange(0, qn as int) =~= questions_view(
                self.questions@,
            ));
        }
        let ghost after_q: Seq<u8> = out@;
        let an = self.answers.len();
        for i in 0..an
            invariant
                an == self.answers@.len(),
                self.wf(),
                out@ == after_q + crate::wire::enc_rrs(
                    records_view(self.answers@).subrange(0, i as int),
                ),
                forall|j: int|
                    0 <= j < i ==> crate::wire::wf_rr_wire(
                        #[trigger] records_view(self.answers@)[j],
                    ),
        {
            match self.answers[i].serialize(&mut out) {
                Ok(()) => (),
                Err(_) => {
                    proof {
                        assert(!crate::wire::wf_rr_wire(self@.answers[i as int]));
                    }
                    return Err(DnsError::TooLong);
                },
            }
            proof {
                let rv = records_view(self.answers@);
                let sub = rv.subrange(0, i + 1);
                crate::wire::lemma_enc_rrs_snoc(sub);
                assert(sub.drop_last() =~= rv.subrange(0, i as int));
                assert(sub.last() == rv[i as int]);
                assert(out@ =~= after_q + crate::wire::enc_rrs(sub));
            }
        }
        proof {
            assert(records_view(self.answers@).subrange(0, an as int) =~= records_view(
                self.answers@,
            ));
        }
        let ghost after_an: Seq<u8> = out@;
        let nn = self.authority.len();
        for i in 0..nn
            invariant
                nn == self.authority@.len(),
                self.wf(),
                out@ == after_an + crate::wire::enc_rrs(
                    records_view(self.authority@).subrange(0, i as int),
                ),
                forall|j: int|
                    0 <= j < i ==> crate::wire::wf_rr_wire(
                        #[trigger] records_view(self.authority@)[j],
                    ),
        {
            match self.authority[i].serialize(&mut out) {
                Ok(()) => (),
                Err(_) => {
                    proof {
                        assert(!crate::wire::wf_rr_wire(self@.authority[i as int]));
                    }
                    return Err(DnsError::TooLong);
                },
            }
            proof {
                let rv = records_view(self.authority@);
                let sub = rv.subrange(0, i + 1);
                crate::wire::lemma_enc_rrs_snoc(sub);
                assert(sub.drop_last() =~= rv.subrange(0, i as int));
                assert(sub.last() == rv[i as int]);
                assert(out@ =~= after_an + crate::wire::enc_rrs(sub));
            }
        }
        proof {
            assert(records_view(self.authority@).subrange(0, nn as int) =~= records_view(
                self.authority@,
            ));
        }
        let ghost after_ns: Seq<u8> = out@;
        let dn = self.additional.len();
        for i in 0..dn
            invariant
                dn == self.additional@.len(),
                self.wf(),
                out@ == after_ns + crate::wire::enc_rrs(
                    records_view(self.additional@).subrange(0, i as int),
                ),
                forall|j: int|
                    0 <= j < i ==> crate::wire::wf_rr_wire(
                        #[trigger] records_view(self.additional@)[j],
                    ),
        {
            match self.additional[i].serialize(&mut out) {
                Ok(()) => (),
                Err(_) => {
                    proof {
                        assert(!crate::wire::wf_rr_wire(self@.additional[i as int]));
                    }
                    return Err(DnsError::TooLong);
                },
            }
            proof {
                let rv = records_view(self.additional@);
                let sub = rv.subrange(0, i + 1);
                crate::wire::lemma_enc_rrs_snoc(sub);
                assert(sub.drop_last() =~= rv.subrange(0, i as int));
                assert(sub.last() == rv[i as int]);
                assert(out@ =~= after_ns + crate::wire::enc_rrs(sub));
            }
        }
        proof {
            assert(records_view(self.additional@).subrange(0, dn as int) =~= records_view(
                self.additional@,
            ));
        }
        match &self.opt {
            Some(o) => {
                match o.serialize(&mut out) {
                    Ok(()) => (),
                    Err(_) => {
                        return Err(DnsError::TooLong);
                    },
                }
            },
            None => (),
        }
        proof {
            assert(mv.questions == self@.questions && mv.answers == self@.answers && mv.authority
                == self@.authority && mv.additional == self@.additional && mv.opt == self@.opt);
            assert(out@ =~= crate::wire::enc_message(mv));
            assert(crate::wire::wf_message_wire(self@));
        }
        Ok(out)
    }

    /// The message's wire form. Fails exactly when the message cannot
    /// stand on the wire: a label over 63 bytes, a payload over 65,535
    /// bytes, or a section count over 65,535. No partial buffer is ever
    /// returned.
    pub fn serialize(&self) -> (r: Result<Vec<u8>, DnsError>)
        requires
            self.wf(),
        ensures
            r is Ok <==> crate::wire::wf_message_wire(self@),
            r matches Ok(v) ==> v@ == crate::wire::enc_message(self@),
            r matches Err(e) ==> e == DnsError::TooLong,
    {
        let r = self.serialize_with_header(self.head);
        proof {
            assert(MessageV { head: self@.head, ..self@ } == self@);
        }
        r
    }

    /// The message's wire form with the transaction id replaced by the
    /// given one; the message itself is left unchanged.
    pub fn serialize_with_id(&self, id: u16) -> (r: Result<Vec<u8>, DnsError>)
        requires
            self.wf(),
        ensures
            r is Ok <==> crate::wire::wf_message_wire(self@),
            r matches Ok(v) ==> v@ == crate::wire::enc_message(with_id(self@, id)),
            r matches Err(e) ==> e == DnsError::TooLong,
    {
        self.serialize_with_header(Header { id, ..self.head })
    }

    /// How many questions the message holds.
    pub fn num_questions(&self) -> (r: usize)
        ensures
            r == self@.questions.len(),
    {
        self.questions.len()
    }

    /// How many answer records the message holds.
    pub fn num_answers(&self) -> (r: usize)
        ensures
            r == self@.answers.len(),
    {
        self.answers.len()
    }

    /// How many authority records the message holds.
    pub fn num_authority(&self) -> (r: usize)
        ensures
            r == self@.authority.len(),
    {
        self.authority.len()
    }

    /// How many additional records the message holds, the EDNS0
    /// pseudo-record not counted.
    pub fn num_additional(&self) -> (r: usize)
        ensures
            r == self@.additional.len(),
    {
        self.additional.len()
    }
}

} // verus!
