//! The mathematical model of the DNS wire format: byte-level encoders and
//! decoders for names, written as specification functions. The executable
//! codec is specified against these.

use vstd::prelude::*;

use crate::enums::{spec_class_code, spec_opcode_code, spec_rcode_code, spec_type_code, Class};
use crate::message::{Header, MessageV};
use crate::question::QuestionV;
use crate::rr::{Ipv6Address, MxRecordV, OptRecordV, RRDataV, ResourceRecordV, SoaRecordV,
    SrvRecordV};

verus! {

/// True of the byte values a label may contain: ASCII alphanumeric or `-`.
pub open spec fn is_label_byte(b: u8) -> bool {
    (48 <= b <= 57) || (65 <= b <= 90) || (97 <= b <= 122) || b == 45
}

/// A well-formed label content: non-empty, alphanumeric or hyphen throughout.
pub open spec fn wf_label_bytes(s: Seq<u8>) -> bool {
    s.len() > 0 && forall|i: int| 0 <= i < s.len() ==> is_label_byte(#[trigger] s[i])
}

/// A label as it can stand on the wire: well-formed and at most 63 bytes,
/// so that its length fits the one-byte length prefix.
pub open spec fn wf_label_wire(s: Seq<u8>) -> bool {
    wf_label_bytes(s) && s.len() <= 63
}

/// A name whose every label can stand on the wire.
pub open spec fn wf_name_wire(nv: Seq<Seq<u8>>) -> bool {
    forall|i: int| 0 <= i < nv.len() ==> wf_label_wire(#[trigger] nv[i])
}

/// One label on the wire: a length byte, then the label bytes.
pub open spec fn enc_label(l: Seq<u8>) -> Seq<u8> {
    seq![l.len() as u8] + l
}

/// The labels of a name on the wire, most specific first, without the
/// terminating root label. Names store their root-most label first, so
/// encoding walks the stored sequence from its end.
pub open spec fn enc_labels(nv: Seq<Seq<u8>>) -> Seq<u8>
    decreases nv.len(),
{
    if nv.len() == 0 {
        Seq::empty()
    } else {
        enc_label(nv.last()) + enc_labels(nv.drop_last())
    }
}

/// A full name on the wire: its labels, then the zero-length root label.
pub open spec fn enc_name(nv: Seq<Seq<u8>>) -> Seq<u8> {
    enc_labels(nv) + seq![0u8]
}

/// The label encodings can also be peeled from the root-most end: the
/// root-most label's encoding stands last on the wire.
pub proof fn lemma_enc_labels_peel_first(nv: Seq<Seq<u8>>)
    requires
        nv.len() > 0,
    ensures
        enc_labels(nv) == enc_labels(nv.subrange(1, nv.len() as int)) + enc_label(nv[0]),
    decreases nv.len(),
{
    if nv.len() == 1 {
        assert(nv.drop_last() =~= nv.subrange(1, 1));
        assert(enc_labels(nv.subrange(1, 1)) =~= Seq::<u8>::empty());
        assert(enc_labels(nv) =~= enc_labels(nv.subrange(1, 1)) + enc_label(nv[0]));
    } else {
        let head = nv.drop_last();
        lemma_enc_labels_peel_first(head);
        let tail = nv.subrange(1, nv.len() as int);
        assert(head.subrange(1, head.len() as int) =~= tail.drop_last());
        assert(tail.last() == nv.last());
        assert(enc_labels(nv) == enc_label(nv.last()) + enc_labels(head));
        assert(enc_labels(head) == enc_labels(tail.drop_last()) + enc_label(nv[0]));
        assert(enc_labels(tail) == enc_label(tail.last()) + enc_labels(tail.drop_last()));
        assert(enc_labels(nv) =~= enc_labels(tail) + enc_label(nv[0]));
    }
}

/// Decodes a name at position `pos`: a sequence of length-prefixed labels
/// terminated by a zero byte. Yields the decoded name (root-most label
/// first) and the position after the terminator, or `None` when the bytes
/// are truncated, a length byte exceeds 63, or a label byte is invalid.
/// Compression back-references are not supported: a length byte above 63
/// is a failure.
pub open spec fn dec_name(bytes: Seq<u8>, pos: int) -> Option<(Seq<Seq<u8>>, int)>
    decreases bytes.len() - pos,
{
    if pos < 0 || pos >= bytes.len() {
        None
    } else {
        let b = bytes[pos];
        if b == 0 {
            Some((Seq::empty(), pos + 1))
        } else if b > 63 {
            None
        } else if pos + 1 + b > bytes.len() {
            None
        } else {
            let lab = bytes.subrange(pos + 1, pos + 1 + b);
            if !wf_label_bytes(lab) {
                None
            } else {
                match dec_name(bytes, pos + 1 + b) {
                    None => None,
                    Some((rest, end)) => Some((rest.push(lab), end)),
                }
            }
        }
    }
}

/// A decoded name lands after its starting position and within the buffer,
/// and is well-formed.
pub proof fn lemma_dec_name_bounds(bytes: Seq<u8>, pos: int)
    requires
        dec_name(bytes, pos) is Some,
    ensures
        pos < dec_name(bytes, pos).unwrap().1 <= bytes.len(),
        wf_name_wire(dec_name(bytes, pos).unwrap().0),
    decreases bytes.len() - pos,
{
    let b = bytes[pos];
    if b == 0 {
    } else {
        lemma_dec_name_bounds(bytes, pos + 1 + b);
    }
}

/// Encoding then decoding a wire-well-formed name recovers it exactly,
/// wherever its encoding stands in a larger buffer.
pub proof fn lemma_dec_enc_name(nv: Seq<Seq<u8>>, bytes: Seq<u8>, pos: int)
    requires
        wf_name_wire(nv),
        0 <= pos,
        pos + enc_name(nv).len() <= bytes.len(),
        bytes.subrange(pos, pos + enc_name(nv).len() as int) == enc_name(nv),
    ensures
        dec_name(bytes, pos) == Some((nv, pos + enc_name(nv).len() as int)),
    decreases nv.len(),
{
    let e = enc_name(nv);
    if nv.len() == 0 {
        assert(e == seq![0u8]);
        assert(bytes[pos] == e[0]);
    } else {
        let leaf = nv.last();
        let rest = nv.drop_last();
        assert(enc_labels(nv) == enc_label(leaf) + enc_labels(rest));
        let erest = enc_name(rest);
        assert(e =~= enc_label(leaf) + erest);
        assert(wf_label_wire(leaf));
        let b = bytes[pos];
        assert(b == e[0]);
        assert(e[0] == leaf.len() as u8);
        assert(1 <= b <= 63);
        assert(pos + 1 + b <= bytes.len());
        let lab = bytes.subrange(pos + 1, pos + 1 + b);
        assert(lab =~= leaf) by {
            assert(forall|i: int| 0 <= i < leaf.len() ==> lab[i] == e[1 + i] && e[1 + i] == leaf[i]);
        }
        let pos2 = pos + 1 + b;
        assert(bytes.subrange(pos2, pos2 + erest.len() as int) =~= erest) by {
            assert(forall|i: int|
                0 <= i < erest.len() ==> bytes.subrange(pos2, pos2 + erest.len() as int)[i]
                    == bytes[pos2 + i] && bytes[pos2 + i] == e[1 + leaf.len() + i] && e[1
                    + leaf.len() + i] == erest[i]);
        }
        lemma_dec_enc_name(rest, bytes, pos2);
        assert(rest.push(lab) =~= nv);
        assert(pos2 + erest.len() == pos + e.len());
    }
}

/// A 16-bit value on the wire: high byte first.
pub open spec fn enc_u16(x: u16) -> Seq<u8> {
    seq![(x / 256) as u8, (x % 256) as u8]
}

/// A 32-bit value on the wire: highest byte first.
pub open spec fn enc_u32(x: u32) -> Seq<u8> {
    seq![
        (x / 0x1000000) as u8,
        ((x / 0x10000) % 256) as u8,
        ((x / 256) % 256) as u8,
        (x % 256) as u8,
    ]
}

/// The 16-bit value two bytes at `pos` spell.
pub open spec fn dec_u16(bytes: Seq<u8>, pos: int) -> u16
    recommends
        0 <= pos,
        pos + 2 <= bytes.len(),
{
    (bytes[pos] * 256 + bytes[pos + 1]) as u16
}

/// The 32-bit value four bytes at `pos` spell.
pub open spec fn dec_u32(bytes: Seq<u8>, pos: int) -> u32
    recommends
        0 <= pos,
        pos + 4 <= bytes.len(),
{
    (bytes[pos] * 0x1000000 + bytes[pos + 1] * 0x10000 + bytes[pos + 2] * 256 + bytes[
        pos + 3
    ]) as u32
}

/// The contribution of a single-bit flag.
pub open spec fn flag_bit(b: bool, weight: u16) -> u16 {
    if b {
        weight
    } else {
        0
    }
}

/// The header's second word: QR at bit 15, the opcode at bits 14-11, AA,
/// TC, RD, RA at bits 10 down to 7, and the response code at bits 3-0.
/// The authenticated-data and checking-disabled flags are not written.
pub open spec fn enc_flags(h: Header) -> u16 {
    (flag_bit(!h.query, 32768) + spec_opcode_code(h.opcode) * 2048 + flag_bit(h.authoritative, 1024)
        + flag_bit(h.truncated, 512) + flag_bit(h.recursion_desired, 256) + flag_bit(
        h.recursion_available,
        128,
    ) + spec_rcode_code(h.response_code)) as u16
}

/// The header a flags word and an id denote. The authenticated-data and
/// checking-disabled flags are read from bits 5 and 4.
pub open spec fn dec_header(id: u16, f: u16) -> Header {
    Header {
        id,
        query: f / 32768 == 0,
        opcode: crate::enums::spec_opcode_from_code(((f / 2048) % 16) as u8),
        authoritative: (f / 1024) % 2 == 1,
        truncated: (f / 512) % 2 == 1,
        recursion_desired: (f / 256) % 2 == 1,
        recursion_available: (f / 128) % 2 == 1,
        authenticated_data: (f / 32) % 2 == 1,
        checking_disabled: (f / 16) % 2 == 1,
        response_code: crate::enums::spec_rcode_from_code((f % 16) as u8),
    }
}

/// The class word of a question: the class code, with the high bit set
/// when unicast response is preferred.
pub open spec fn question_class_word(q: QuestionV) -> u16 {
    (spec_class_code(q.qclass) + flag_bit(q.prefer_unicast, 32768)) as u16
}

/// A question on the wire: name, type code, class word.
pub open spec fn enc_question(q: QuestionV) -> Seq<u8> {
    enc_name(q.name) + enc_u16(spec_type_code(q.qtype)) + enc_u16(question_class_word(q))
}

/// A question section on the wire, in order.
pub open spec fn enc_questions(qs: Seq<QuestionV>) -> Seq<u8>
    decreases qs.len(),
{
    if qs.len() == 0 {
        Seq::empty()
    } else {
        enc_question(qs[0]) + enc_questions(qs.subrange(1, qs.len() as int))
    }
}

/// The type number a payload is written with. `Unknown` is reported as
/// TXT's type number, a known approximation kept as given.
pub open spec fn rrdata_typenum(d: RRDataV) -> u16 {
    match d {
        RRDataV::CNAME(_) => 5,
        RRDataV::NS(_) => 2,
        RRDataV::A(_) => 1,
        RRDataV::AAAA(_) => 28,
        RRDataV::SRV(_) => 33,
        RRDataV::SOA(_) => 6,
        RRDataV::PTR(_) => 12,
        RRDataV::MX(_) => 15,
        RRDataV::TXT(_) => 16,
        RRDataV::Unknown(_) => 16,
    }
}

/// The eight segments of an IPv6 address on the wire.
pub open spec fn enc_ipv6(a: Ipv6Address) -> Seq<u8> {
    enc_u16(a.s0) + enc_u16(a.s1) + enc_u16(a.s2) + enc_u16(a.s3) + enc_u16(a.s4) + enc_u16(a.s5)
        + enc_u16(a.s6) + enc_u16(a.s7)
}

/// A payload's bytes on the wire, without the length prefix.
pub open spec fn enc_rrdata(d: RRDataV) -> Seq<u8> {
    match d {
        RRDataV::CNAME(n) => enc_name(n),
        RRDataV::NS(n) => enc_name(n),
        RRDataV::A(a) => seq![a.o0, a.o1, a.o2, a.o3],
        RRDataV::AAAA(a) => enc_ipv6(a),
        RRDataV::SRV(s) => enc_u16(s.priority) + enc_u16(s.weight) + enc_u16(s.port) + enc_name(
            s.target,
        ),
        RRDataV::SOA(s) => enc_name(s.primary_ns) + enc_name(s.mailbox) + enc_u32(s.serial)
            + enc_u32(s.refresh) + enc_u32(s.retry) + enc_u32(s.expire) + enc_u32(s.min_ttl),
        RRDataV::PTR(n) => enc_name(n),
        RRDataV::MX(m) => enc_u16(m.preference) + enc_name(m.exchange),
        RRDataV::TXT(v) => v,
        RRDataV::Unknown(v) => v,
    }
}

/// The class word of a record: the class code, with the high bit set for
/// a multicast-unique record.
pub open spec fn record_class_word(r: ResourceRecordV) -> u16 {
    (spec_class_code(r.class) + flag_bit(r.multicast_unique, 32768)) as u16
}

/// A resource record on the wire: name, type number, class word, TTL,
/// then the length-prefixed payload.
pub open spec fn enc_rr(r: ResourceRecordV) -> Seq<u8> {
    enc_name(r.name) + enc_u16(rrdata_typenum(r.data)) + enc_u16(record_class_word(r)) + enc_u32(
        r.ttl,
    ) + enc_u16(enc_rrdata(r.data).len() as u16) + enc_rrdata(r.data)
}

/// A record section on the wire, in order.
pub open spec fn enc_rrs(rs: Seq<ResourceRecordV>) -> Seq<u8>
    decreases rs.len(),
{
    if rs.len() == 0 {
        Seq::empty()
    } else {
        enc_rr(rs[0]) + enc_rrs(rs.subrange(1, rs.len() as int))
    }
}

/// The EDNS0 pseudo-record on the wire: a root name, type 41, the UDP
/// size in the class field, the extended code, version and flags in the
/// TTL field, then the length-prefixed payload.
pub open spec fn enc_opt(o: OptRecordV) -> Seq<u8> {
    seq![0u8] + enc_u16(41) + enc_u16(o.udp) + seq![o.extrcode, o.version] + enc_u16(o.flags)
        + enc_u16(enc_rrdata(o.data).len() as u16) + enc_rrdata(o.data)
}

/// The number the additional-count field carries: the additional records,
/// with the EDNS0 pseudo-record counted as one of them.
pub open spec fn additional_count(m: MessageV) -> int {
    m.additional.len() + if m.opt is Some {
        1int
    } else {
        0int
    }
}

/// A full message on the wire: the 12-byte header, the four sections in
/// order, then the EDNS0 pseudo-record if present.
pub open spec fn enc_message(m: MessageV) -> Seq<u8> {
    enc_u16(m.head.id) + enc_u16(enc_flags(m.head)) + enc_u16(m.questions.len() as u16) + enc_u16(
        m.answers.len() as u16,
    ) + enc_u16(m.authority.len() as u16) + enc_u16(additional_count(m) as u16) + enc_questions(
        m.questions,
    ) + enc_rrs(m.answers) + enc_rrs(m.authority) + enc_rrs(m.additional) + (match m.opt {
        Some(o) => enc_opt(o),
        None => Seq::empty(),
    })
}

/// Decodes a question at `pos`: a name, then a type code that must be a
/// question type, then a class word whose low bits must be a question
/// class and whose high bit is the unicast preference.
pub open spec fn dec_question(bytes: Seq<u8>, pos: int) -> Option<(QuestionV, int)> {
    match dec_name(bytes, pos) {
        None => None,
        Some((nv, p)) => if p + 4 > bytes.len() {
            None
        } else {
            let t = dec_u16(bytes, p);
            match crate::enums::spec_qtype_from_code(t) {
                None => None,
                Some(qt) => {
                    let cw = dec_u16(bytes, p + 2);
                    match crate::enums::spec_qclass_from_code((cw % 32768) as u16) {
                        None => None,
                        Some(qc) => Some(
                            (
                                QuestionV {
                                    name: nv,
                                    prefer_unicast: cw >= 32768,
                                    qtype: qt,
                                    qclass: qc,
                                },
                                p + 4,
                            ),
                        ),
                    }
                },
            }
        },
    }
}

/// Decodes `n` questions in sequence.
pub open spec fn dec_questions(bytes: Seq<u8>, pos: int, n: int) -> Option<(Seq<QuestionV>, int)>
    decreases n,
{
    if n <= 0 {
        Some((Seq::empty(), pos))
    } else {
        match dec_question(bytes, pos) {
            None => None,
            Some((q, p)) => match dec_questions(bytes, p, n - 1) {
                None => None,
                Some((qs, end)) => Some((seq![q] + qs, end)),
            },
        }
    }
}

/// Decodes a payload of the given type number from exactly the given
/// bytes. Typed payloads must fill their bytes exactly; type numbers that
/// are valid record types but not modelled decode as `Unknown`; any other
/// type number is a failure. Type 16 decodes as TXT, so an `Unknown`
/// payload, written with TXT's number, does not decode back to itself.
pub open spec fn dec_rrdata(t: u16, b: Seq<u8>) -> Option<RRDataV> {
    if t == 1 {
        if b.len() == 4 {
            Some(
                RRDataV::A(
                    crate::rr::Ipv4Address { o0: b[0], o1: b[1], o2: b[2], o3: b[3] },
                ),
            )
        } else {
            None
        }
    } else if t == 2 {
        match dec_name(b, 0) {
            Some((nv, p)) => if p == b.len() {
                Some(RRDataV::NS(nv))
            } else {
                None
            },
            None => None,
        }
    } else if t == 5 {
        match dec_name(b, 0) {
            Some((nv, p)) => if p == b.len() {
                Some(RRDataV::CNAME(nv))
            } else {
                None
            },
            None => None,
        }
    } else if t == 6 {
        match dec_name(b, 0) {
            None => None,
            Some((n1, p1)) => match dec_name(b, p1) {
                None => None,
                Some((n2, p2)) => if p2 + 20 == b.len() {
                    Some(
                        RRDataV::SOA(
                            SoaRecordV {
                                primary_ns: n1,
                                mailbox: n2,
                                serial: dec_u32(b, p2),
                                refresh: dec_u32(b, p2 + 4),
                                retry: dec_u32(b, p2 + 8),
                                expire: dec_u32(b, p2 + 12),
                                min_ttl: dec_u32(b, p2 + 16),
                            },
                        ),
                    )
                } else {
                    None
                },
            },
        }
    } else if t == 12 {
        match dec_name(b, 0) {
            Some((nv, p)) => if p == b.len() {
                Some(RRDataV::PTR(nv))
            } else {
                None
            },
            None => None,
        }
    } else if t == 15 {
        if b.len() < 2 {
            None
        } else {
            match dec_name(b, 2) {
                Some((nv, p)) => if p == b.len() {
                    Some(RRDataV::MX(MxRecordV { preference: dec_u16(b, 0), exchange: nv }))
                } else {
                    None
                },
                None => None,
            }
        }
    } else if t == 16 {
        Some(RRDataV::TXT(b))
    } else if t == 28 {
        if b.len() == 16 {
            Some(
                RRDataV::AAAA(
                    Ipv6Address {
                        s0: dec_u16(b, 0),
                        s1: dec_u16(b, 2),
                        s2: dec_u16(b, 4),
                        s3: dec_u16(b, 6),
                        s4: dec_u16(b, 8),
                        s5: dec_u16(b, 10),
                        s6: dec_u16(b, 12),
                        s7: dec_u16(b, 14),
                    },
                ),
            )
        } else {
            None
        }
    } else if t == 33 {
        if b.len() < 6 {
            None
        } else {
            match dec_name(b, 6) {
                Some((nv, p)) => if p == b.len() {
                    Some(
                        RRDataV::SRV(
                            SrvRecordV {
                                priority: dec_u16(b, 0),
                                weight: dec_u16(b, 2),
                                port: dec_u16(b, 4),
                                target: nv,
                            },
                        ),
                    )
                } else {
                    None
                },
                None => None,
            }
        }
    } else if t == 4 || t == 7 || t == 8 || t == 9 || t == 10 || t == 11 || t == 13 || t == 14 {
        Some(RRDataV::Unknown(b))
    } else {
        None
    }
}

/// Decodes a resource record at `pos`: a name, a type number other than
/// the EDNS0 one, a class word whose low bits must be a record class, the
/// TTL, and a length-prefixed payload.
pub open spec fn dec_rr(bytes: Seq<u8>, pos: int) -> Option<(ResourceRecordV, int)> {
    match dec_name(bytes, pos) {
        None => None,
        Some((nv, p)) => if p + 10 > bytes.len() {
            None
        } else {
            let t = dec_u16(bytes, p);
            if t == 41 {
                None
            } else {
                let cw = dec_u16(bytes, p + 2);
                match crate::enums::spec_rrclass_from_code((cw % 32768) as u16) {
                    None => None,
                    Some(cls) => {
                        let rdlen = dec_u16(bytes, p + 8);
                        if p + 10 + rdlen > bytes.len() {
                            None
                        } else {
                            match dec_rrdata(t, bytes.subrange(p + 10, p + 10 + rdlen)) {
                                None => None,
                                Some(d) => Some(
                                    (
                                        ResourceRecordV {
                                            name: nv,
                                            multicast_unique: cw >= 32768,
                                            class: cls,
                                            ttl: dec_u32(bytes, p + 4),
                                            data: d,
                                        },
                                        p + 10 + rdlen,
                                    ),
                                ),
                            }
                        }
                    },
                }
            }
        },
    }
}

/// Decodes `n` resource records in sequence; none may be the EDNS0
/// pseudo-record.
pub open spec fn dec_rrs(bytes: Seq<u8>, pos: int, n: int) -> Option<(Seq<ResourceRecordV>, int)>
    decreases n,
{
    if n <= 0 {
        Some((Seq::empty(), pos))
    } else {
        match dec_rr(bytes, pos) {
            None => None,
            Some((r, p)) => match dec_rrs(bytes, p, n - 1) {
                None => None,
                Some((rs, end)) => Some((seq![r] + rs, end)),
            },
        }
    }
}

/// Decodes the EDNS0 pseudo-record's fields after its root name, starting
/// at its type number's position.
pub open spec fn dec_opt_fields(bytes: Seq<u8>, p: int) -> Option<(OptRecordV, int)> {
    if p + 10 > bytes.len() {
        None
    } else {
        let rdlen = dec_u16(bytes, p + 8);
        if p + 10 + rdlen > bytes.len() {
            None
        } else {
            Some(
                (
                    OptRecordV {
                        udp: dec_u16(bytes, p + 2),
                        extrcode: bytes[p + 4],
                        version: bytes[p + 5],
                        flags: dec_u16(bytes, p + 6),
                        data: RRDataV::Unknown(bytes.subrange(p + 10, p + 10 + rdlen)),
                    },
                    p + 10 + rdlen,
                ),
            )
        }
    }
}

/// Decodes `n` additional items: resource records with at most one EDNS0
/// pseudo-record among them, the latter recognised by a root name and
/// type number 41. A second pseudo-record is a failure.
pub open spec fn dec_additional(bytes: Seq<u8>, pos: int, n: int) -> Option<
    (Seq<ResourceRecordV>, Option<OptRecordV>, int),
>
    decreases n,
{
    if n <= 0 {
        Some((Seq::empty(), None, pos))
    } else {
        match dec_name(bytes, pos) {
            None => None,
            Some((nv, p)) => if p + 2 > bytes.len() {
                None
            } else if dec_u16(bytes, p) == 41 {
                if nv.len() != 0 {
                    None
                } else {
                    match dec_opt_fields(bytes, p) {
                        None => None,
                        Some((o, p2)) => match dec_additional(bytes, p2, n - 1) {
                            None => None,
                            Some((rs, opt2, end)) => if opt2 is Some {
                                None
                            } else {
                                Some((rs, Some(o), end))
                            },
                        },
                    }
                }
            } else {
                match dec_rr(bytes, pos) {
                    None => None,
                    Some((r, p2)) => match dec_additional(bytes, p2, n - 1) {
                        None => None,
                        Some((rs, opt2, end)) => Some((seq![r] + rs, opt2, end)),
                    },
                }
            },
        }
    }
}

/// Decodes a whole datagram into a message: the 12-byte header, then each
/// section with exactly the count the header claims, the EDNS0
/// pseudo-record counted as one additional record, and nothing left over.
/// Any count mismatch, any trailing byte, and any malformed element is a
/// failure.
pub open spec fn dec_message(bytes: Seq<u8>) -> Option<MessageV> {
    if bytes.len() < 12 {
        None
    } else {
        let head = dec_header(dec_u16(bytes, 0), dec_u16(bytes, 2));
        let qd = dec_u16(bytes, 4) as int;
        let an = dec_u16(bytes, 6) as int;
        let ns = dec_u16(bytes, 8) as int;
        let ar = dec_u16(bytes, 10) as int;
        match dec_questions(bytes, 12, qd) {
            None => None,
            Some((qs, p1)) => match dec_rrs(bytes, p1, an) {
                None => None,
                Some((ans, p2)) => match dec_rrs(bytes, p2, ns) {
                    None => None,
                    Some((auth, p3)) => match dec_additional(bytes, p3, ar) {
                        None => None,
                        Some((adds, opt, p4)) => if p4 == bytes.len() {
                            Some(
                                MessageV {
                                    head,
                                    questions: qs,
                                    answers: ans,
                                    authority: auth,
                                    additional: adds,
                                    opt,
                                },
                            )
                        } else {
                            None
                        },
                    },
                },
            },
        }
    }
}

/// Appends a 16-bit value, high byte first.
pub fn push_u16(out: &mut Vec<u8>, x: u16)
    ensures
        final(out)@ == old(out)@ + enc_u16(x),
{
    out.push((x / 256) as u8);
    out.push((x % 256) as u8);
    proof {
        assert(out@ =~= old(out)@ + enc_u16(x));
    }
}

/// Appends a 32-bit value, highest byte first.
pub fn push_u32(out: &mut Vec<u8>, x: u32)
    ensures
        final(out)@ == old(out)@ + enc_u32(x),
{
    out.push((x / 0x1000000) as u8);
    out.push(((x / 0x10000) % 256) as u8);
    out.push(((x / 256) % 256) as u8);
    out.push((x % 256) as u8);
    proof {
        assert(out@ =~= old(out)@ + enc_u32(x));
    }
}

/// Appends a byte slice.
pub fn push_bytes(out: &mut Vec<u8>, b: &[u8])
    ensures
        final(out)@ == old(out)@ + b@,
{
    let n = b.len();
    for i in 0..n
        invariant
            n == b@.len(),
            out@ == old(out)@ + b@.subrange(0, i as int),
    {
        out.push(b[i]);
        proof {
            assert(out@ =~= old(out)@ + b@.subrange(0, i + 1 as int));
        }
    }
    proof {
        assert(b@.subrange(0, n as int) =~= b@);
    }
}

/// A question section's encoding can also be peeled from its end.
pub proof fn lemma_enc_questions_snoc(qs: Seq<QuestionV>)
    requires
        qs.len() > 0,
    ensures
        enc_questions(qs) == enc_questions(qs.drop_last()) + enc_question(qs.last()),
    decreases qs.len(),
{
    if qs.len() == 1 {
        assert(qs.drop_last() =~= qs.subrange(1, 1));
        assert(enc_questions(qs.drop_last()) =~= Seq::<u8>::empty());
        assert(qs.subrange(1, 1).len() == 0);
        assert(enc_questions(qs) =~= enc_questions(qs.drop_last()) + enc_question(qs[0]));
    } else {
        let tail = qs.subrange(1, qs.len() as int);
        lemma_enc_questions_snoc(tail);
        assert(tail.drop_last() =~= qs.drop_last().subrange(1, qs.len() - 1));
        assert(tail.last() == qs.last());
        assert(qs.drop_last()[0] == qs[0]);
        assert(enc_questions(qs) =~= enc_questions(qs.drop_last()) + enc_question(qs.last()));
    }
}

/// A record section's encoding can also be peeled from its end.
pub proof fn lemma_enc_rrs_snoc(rs: Seq<ResourceRecordV>)
    requires
        rs.len() > 0,
    ensures
        enc_rrs(rs) == enc_rrs(rs.drop_last()) + enc_rr(rs.last()),
    decreases rs.len(),
{
    if rs.len() == 1 {
        assert(rs.drop_last() =~= rs.subrange(1, 1));
        assert(enc_rrs(rs.drop_last()) =~= Seq::<u8>::empty());
        assert(rs.subrange(1, 1).len() == 0);
        assert(enc_rrs(rs) =~= enc_rrs(rs.drop_last()) + enc_rr(rs[0]));
    } else {
        let tail = rs.subrange(1, rs.len() as int);
        lemma_enc_rrs_snoc(tail);
        assert(tail.drop_last() =~= rs.drop_last().subrange(1, rs.len() - 1));
        assert(tail.last() == rs.last());
        assert(rs.drop_last()[0] == rs[0]);
        assert(enc_rrs(rs) =~= enc_rrs(rs.drop_last()) + enc_rr(rs.last()));
    }
}

/// A payload that can stand on the wire: every name in it can, and its
/// encoding fits the 16-bit length prefix.
pub open spec fn wf_rrdata_wire(d: RRDataV) -> bool {
    &&& match d {
        RRDataV::CNAME(n) => wf_name_wire(n),
        RRDataV::NS(n) => wf_name_wire(n),
        RRDataV::A(_) => true,
        RRDataV::AAAA(_) => true,
        RRDataV::SRV(s) => wf_name_wire(s.target),
        RRDataV::SOA(s) => wf_name_wire(s.primary_ns) && wf_name_wire(s.mailbox),
        RRDataV::PTR(n) => wf_name_wire(n),
        RRDataV::MX(m) => wf_name_wire(m.exchange),
        RRDataV::TXT(_) => true,
        RRDataV::Unknown(_) => true,
    }
    &&& enc_rrdata(d).len() <= 65535
}

/// A record that can stand on the wire.
pub open spec fn wf_rr_wire(r: ResourceRecordV) -> bool {
    wf_name_wire(r.name) && wf_rrdata_wire(r.data)
}

/// A question that can stand on the wire.
pub open spec fn wf_question_wire(q: QuestionV) -> bool {
    wf_name_wire(q.name)
}

/// A message that can be serialized: every name fits its length prefix,
/// every payload fits its 16-bit length field, and every section count
/// fits its 16-bit count field.
pub open spec fn wf_message_wire(m: MessageV) -> bool {
    &&& forall|i: int| 0 <= i < m.questions.len() ==> wf_question_wire(#[trigger] m.questions[i])
    &&& forall|i: int| 0 <= i < m.answers.len() ==> wf_rr_wire(#[trigger] m.answers[i])
    &&& forall|i: int| 0 <= i < m.authority.len() ==> wf_rr_wire(#[trigger] m.authority[i])
    &&& forall|i: int| 0 <= i < m.additional.len() ==> wf_rr_wire(#[trigger] m.additional[i])
    &&& match m.opt {
        Some(o) => wf_rrdata_wire(o.data),
        None => true,
    }
    &&& m.questions.len() <= 65535
    &&& m.answers.len() <= 65535
    &&& m.authority.len() <= 65535
    &&& additional_count(m) <= 65535
}

/// A header whose encoding loses nothing: the opcode and response code
/// are among the modelled kinds, and the two flags the wire layout does
/// not carry are clear.
pub open spec fn wf_header_round(h: Header) -> bool {
    &&& !(h.opcode is Reserved)
    &&& !(h.response_code is Reserved)
    &&& !h.authenticated_data
    &&& !h.checking_disabled
}

/// A question whose encoding loses nothing: it can stand on the wire,
/// and its type is a question type.
pub open spec fn wf_question_round(q: QuestionV) -> bool {
    wf_question_wire(q) && q.qtype != crate::enums::Type::OPT
}

/// A payload whose encoding loses nothing: it can stand on the wire and
/// is not `Unknown`, which is written with TXT's type number and so
/// comes back as TXT.
pub open spec fn wf_rrdata_round(d: RRDataV) -> bool {
    wf_rrdata_wire(d) && !(d is Unknown)
}

/// A record whose encoding loses nothing: its payload does, and its
/// class is a record class.
pub open spec fn wf_rr_round(r: ResourceRecordV) -> bool {
    wf_name_wire(r.name) && wf_rrdata_round(r.data) && r.class != Class::Any
}

/// An EDNS0 pseudo-record whose encoding loses nothing: its payload is
/// the raw options container, as parsing yields it.
pub open spec fn wf_opt_round(o: OptRecordV) -> bool {
    o.data is Unknown && enc_rrdata(o.data).len() <= 65535
}

/// A message whose encoding loses nothing: every part does.
pub open spec fn wf_message_round(m: MessageV) -> bool {
    &&& wf_message_wire(m)
    &&& wf_header_round(m.head)
    &&& forall|i: int| 0 <= i < m.questions.len() ==> wf_question_round(#[trigger] m.questions[i])
    &&& forall|i: int| 0 <= i < m.answers.len() ==> wf_rr_round(#[trigger] m.answers[i])
    &&& forall|i: int| 0 <= i < m.authority.len() ==> wf_rr_round(#[trigger] m.authority[i])
    &&& forall|i: int| 0 <= i < m.additional.len() ==> wf_rr_round(#[trigger] m.additional[i])
    &&& match m.opt {
        Some(o) => wf_opt_round(o),
        None => true,
    }
}

} // verus!
