//! The executable wire-format parser. Each function's contract states
//! that it returns exactly what the specification decoder in `wire`
//! yields on the same bytes.

use vstd::prelude::*;

use crate::errors::DnsError;
use crate::message::{questions_view, records_view, Header, Message};
use crate::name::{labels_view, Label, Name};
use crate::question::Question;
use crate::rr::{OptRecord, OptRecordV, RRData, ResourceRecord};
use crate::wire::{dec_additional, dec_message, dec_name, dec_opt_fields, dec_question,
    dec_questions, dec_rr, dec_rrdata, dec_rrs, dec_u16, dec_u32};
use vstd::slice::{slice_subrange, slice_to_vec};

verus! {

/// Reads a big-endian 16-bit value.
fn read_u16(data: &[u8], pos: usize) -> (r: u16)
    requires
        pos + 2 <= data@.len(),
    ensures
        r == dec_u16(data@, pos as int),
{
    (data[pos] as u16) * 256 + (data[pos + 1] as u16)
}

/// Reads a big-endian 32-bit value.
fn read_u32(data: &[u8], pos: usize) -> (r: u32)
    requires
        pos + 4 <= data@.len(),
    ensures
        r == dec_u32(data@, pos as int),
{
    (data[pos] as u32) * 0x1000000 + (data[pos + 1] as u32) * 0x10000 + (data[pos + 2] as u32) * 256
        + (data[pos + 3] as u32)
}

/// Parses a name at `pos`: length-prefixed labels up to a zero byte.
/// Returns exactly what the specification decoder yields.
pub fn parse_name(data: &[u8], pos: usize) -> (r: Result<(Name, usize), DnsError>)
    ensures
        r matches Ok(p) ==> dec_name(data@, pos as int) == Some((p.0@, p.1 as int)) && p.0.wf()
            && pos < p.1 <= data@.len(),
        r is Err ==> dec_name(data@, pos as int) is None,
        r matches Err(e) ==> e == DnsError::Parse,
{
    let mut wirelabs: Vec<Label> = Vec::new();
    let mut cur: usize = pos;
    loop
        invariant_except_break
            pos <= cur,
            forall|i: int| 0 <= i < wirelabs@.len() ==> (#[trigger] wirelabs@[i]).wf(),
            dec_name(data@, pos as int) == (match dec_name(data@, cur as int) {
                None => None::<(Seq<Seq<u8>>, int)>,
                Some((rest, end)) => Some((rest + labels_view(wirelabs@).reverse(), end)),
            }),
        ensures
            pos < cur <= data@.len(),
            forall|i: int| 0 <= i < wirelabs@.len() ==> (#[trigger] wirelabs@[i]).wf(),
            dec_name(data@, pos as int) == Some(
                (labels_view(wirelabs@).reverse(), cur as int),
            ),
        decreases data@.len() - cur,
    {
        if cur >= data.len() {
            return Err(DnsError::Parse);
        }
        let b = data[cur];
        if b == 0 {
            cur = cur + 1;
            proof {
                assert(Seq::<Seq<u8>>::empty() + labels_view(wirelabs@).reverse()
                    =~= labels_view(wirelabs@).reverse());
            }
            break ;
        }
        if b > 63 {
            return Err(DnsError::Parse);
        }
        let blen = b as usize;
        if blen > data.len() - cur - 1 {
            return Err(DnsError::Parse);
        }
        let lab_bytes = slice_to_vec(slice_subrange(data, cur + 1, cur + 1 + blen));
        let lab = match Label::from_bytes(&lab_bytes) {
            Ok(l) => l,
            Err(_) => {
                return Err(DnsError::Parse);
            },
        };
        let ghost old_wirelabs = wirelabs@;
        wirelabs.push(lab);
        proof {
            let lv = lab@;
            assert(labels_view(wirelabs@) =~= labels_view(old_wirelabs).push(lv));
            assert(labels_view(wirelabs@).reverse() =~= seq![lv] + labels_view(
                old_wirelabs,
            ).reverse());
            let next = cur + 1 + blen;
            match dec_name(data@, next as int) {
                None => {},
                Some((rest, end)) => {
                    assert(rest.push(lv) + labels_view(old_wirelabs).reverse() =~= rest
                        + labels_view(wirelabs@).reverse());
                },
            }
        }
        cur = cur + 1 + blen;
    }
    let mut labels: Vec<Label> = Vec::new();
    let ghost wire_views = labels_view(wirelabs@);
    loop
        invariant
            forall|i: int| 0 <= i < wirelabs@.len() ==> (#[trigger] wirelabs@[i]).wf(),
            forall|i: int| 0 <= i < labels@.len() ==> (#[trigger] labels@[i]).wf(),
            labels_view(wirelabs@) == wire_views.subrange(0, wirelabs@.len() as int),
            labels_view(labels@) == wire_views.reverse().subrange(0, labels@.len() as int),
            wirelabs@.len() + labels@.len() == wire_views.len(),
        ensures
            forall|i: int| 0 <= i < labels@.len() ==> (#[trigger] labels@[i]).wf(),
            labels_view(labels@) == wire_views.reverse(),
        decreases wirelabs@.len(),
    {
        let ghost pre = wirelabs@;
        match wirelabs.pop() {
            Some(l) => {
                labels.push(l);
                proof {
                    assert(labels_view(wirelabs@) =~= wire_views.subrange(
                        0,
                        wirelabs@.len() as int,
                    ));
                    assert(labels_view(labels@) =~= wire_views.reverse().subrange(
                        0,
                        labels@.len() as int,
                    )) by {
                        assert(labels_view(pre) == wire_views.subrange(0, pre.len() as int));
                        assert(labels_view(pre)[pre.len() - 1] == l@);
                        assert(l@ == wire_views[pre.len() - 1]);
                        assert(wire_views.reverse()[labels@.len() - 1] == wire_views[wire_views.len()
                            - labels@.len()]);
                    }
                }
            },
            None => {
                proof {
                    assert(labels_view(labels@) =~= wire_views.reverse().subrange(
                        0,
                        labels@.len() as int,
                    ));
                    assert(labels_view(labels@) =~= wire_views.reverse());
                }
                break ;
            },
        }
    }
    let n = Name::from_labels(labels);
    Ok((n, cur))
}

/// Parses a question at `pos`. Returns exactly what the specification
/// decoder yields.
pub fn parse_question(data: &[u8], pos: usize) -> (r: Result<(Question, usize), DnsError>)
    ensures
        r matches Ok(p) ==> dec_question(data@, pos as int) == Some((p.0@, p.1 as int)) && p.0.wf()
            && pos < p.1 <= data@.len(),
        r is Err ==> dec_question(data@, pos as int) is None,
        r matches Err(e) ==> e == DnsError::Parse,
{
    let (name, p) = match parse_name(data, pos) {
        Ok(x) => x,
        Err(e) => {
            return Err(e);
        },
    };
    if data.len() < 4 || p > data.len() - 4 {
        return Err(DnsError::Parse);
    }
    let t = read_u16(data, p);
    let qt = match crate::enums::Type::question_type_from_code(t) {
        Some(x) => x,
        None => {
            return Err(DnsError::Parse);
        },
    };
    let cw = read_u16(data, p + 2);
    let qc = match crate::enums::Class::question_class_from_code(cw % 32768) {
        Some(x) => x,
        None => {
            return Err(DnsError::Parse);
        },
    };
    let q = Question { name, prefer_unicast: cw >= 32768, qtype: qt, qclass: qc };
    Ok((q, p + 4))
}

/// Parses a payload of the given type number from exactly the given
/// bytes. Returns exactly what the specification decoder yields.
pub fn parse_rrdata(t: u16, b: Vec<u8>) -> (r: Result<RRData, DnsError>)
    ensures
        r matches Ok(d) ==> dec_rrdata(t, b@) == Some(d@) && d.wf(),
        r is Err ==> dec_rrdata(t, b@) is None,
        r matches Err(e) ==> e == DnsError::Parse,
{
    if t == 1 {
        if b.len() == 4 {
            Ok(RRData::A(crate::rr::Ipv4Address { o0: b[0], o1: b[1], o2: b[2], o3: b[3] }))
        } else {
            Err(DnsError::Parse)
        }
    } else if t == 2 || t == 5 || t == 12 {
        let (n, p) = match parse_name(b.as_slice(), 0) {
            Ok(x) => x,
            Err(e) => {
                return Err(e);
            },
        };
        if p != b.len() {
            return Err(DnsError::Parse);
        }
        if t == 2 {
            Ok(RRData::NS(n))
        } else if t == 5 {
            Ok(RRData::CNAME(n))
        } else {
            Ok(RRData::PTR(n))
        }
    } else if t == 6 {
        let (n1, p1) = match parse_name(b.as_slice(), 0) {
            Ok(x) => x,
            Err(e) => {
                return Err(e);
            },
        };
        let (n2, p2) = match parse_name(b.as_slice(), p1) {
            Ok(x) => x,
            Err(e) => {
                return Err(e);
            },
        };
        if b.len() < 20 || p2 != b.len() - 20 {
            return Err(DnsError::Parse);
        }
        let bs = b.as_slice();
        Ok(
            RRData::SOA(
                crate::rr::SoaRecord {
                    primary_ns: n1,
                    mailbox: n2,
                    serial: read_u32(bs, p2),
                    refresh: read_u32(bs, p2 + 4),
                    retry: read_u32(bs, p2 + 8),
                    expire: read_u32(bs, p2 + 12),
                    min_ttl: read_u32(bs, p2 + 16),
                },
            ),
        )
    } else if t == 15 {
        if b.len() < 2 {
            return Err(DnsError::Parse);
        }
        let (n, p) = match parse_name(b.as_slice(), 2) {
            Ok(x) => x,
            Err(e) => {
                return Err(e);
            },
        };
        if p != b.len() {
            return Err(DnsError::Parse);
        }
        Ok(RRData::MX(crate::rr::MxRecord { preference: read_u16(b.as_slice(), 0), exchange: n }))
    } else if t == 16 {
        Ok(RRData::TXT(b))
    } else if t == 28 {
        if b.len() == 16 {
            let bs = b.as_slice();
            Ok(
                RRData::AAAA(
                    crate::rr::Ipv6Address {
                        s0: read_u16(bs, 0),
                        s1: read_u16(bs, 2),
                        s2: read_u16(bs, 4),
                        s3: read_u16(bs, 6),
                        s4: read_u16(bs, 8),
                        s5: read_u16(bs, 10),
                        s6: read_u16(bs, 12),
                        s7: read_u16(bs, 14),
                    },
                ),
            )
        } else {
            Err(DnsError::Parse)
        }
    } else if t == 33 {
        if b.len() < 6 {
            return Err(DnsError::Parse);
        }
        let (n, p) = match parse_name(b.as_slice(), 6) {
            Ok(x) => x,
            Err(e) => {
                return Err(e);
            },
        };
        if p != b.len() {
            return Err(DnsError::Parse);
        }
        let bs = b.as_slice();
        Ok(
            RRData::SRV(
                crate::rr::SrvRecord {
                    priority: read_u16(bs, 0),
                    weight: read_u16(bs, 2),
                    port: read_u16(bs, 4),
                    target: n,
                },
            ),
        )
    } else if t == 4 || t == 7 || t == 8 || t == 9 || t == 10 || t == 11 || t == 13 || t == 14 {
        Ok(RRData::Unknown(b))
    } else {
        Err(DnsError::Parse)
    }
}

/// Parses a resource record at `pos`; the EDNS0 type number is a failure
/// here. Returns exactly what the specification decoder yields.
pub fn parse_rr(data: &[u8], pos: usize) -> (r: Result<(ResourceRecord, usize), DnsError>)
    ensures
        r matches Ok(p) ==> dec_rr(data@, pos as int) == Some((p.0@, p.1 as int)) && p.0.wf() && pos
            < p.1 <= data@.len(),
        r is Err ==> dec_rr(data@, pos as int) is None,
        r matches Err(e) ==> e == DnsError::Parse,
{
    let (name, p) = match parse_name(data, pos) {
        Ok(x) => x,
        Err(e) => {
            return Err(e);
        },
    };
    if data.len() < 10 || p > data.len() - 10 {
        return Err(DnsError::Parse);
    }
    let t = read_u16(data, p);
    if t == 41 {
        return Err(DnsError::Parse);
    }
    let cw = read_u16(data, p + 2);
    let cls = match crate::enums::Class::record_class_from_code(cw % 32768) {
        Some(x) => x,
        None => {
            return Err(DnsError::Parse);
        },
    };
    let ttl = read_u32(data, p + 4);
    let rdlen = read_u16(data, p + 8) as usize;
    if rdlen > data.len() - (p + 10) {
        return Err(DnsError::Parse);
    }
    let buf = slice_to_vec(slice_subrange(data, p + 10, p + 10 + rdlen));
    let d = match parse_rrdata(t, buf) {
        Ok(x) => x,
        Err(e) => {
            return Err(e);
        },
    };
    let rr = ResourceRecord { name, multicast_unique: cw >= 32768, class: cls, ttl, data: d };
    Ok((rr, p + 10 + rdlen))
}

/// Parses `n` questions in sequence. Returns exactly what the
/// specification decoder yields.
pub fn parse_questions(data: &[u8], pos: usize, n: u16) -> (r: Result<
    (Vec<Question>, usize),
    DnsError,
>)
    requires
        pos <= data@.len(),
    ensures
        r matches Ok(p) ==> dec_questions(data@, pos as int, n as int) == Some(
            (questions_view(p.0@), p.1 as int),
        ) && (forall|i: int| 0 <= i < p.0@.len() ==> (#[trigger] p.0@[i]).wf()) && pos <= p.1
            <= data@.len(),
        r is Err ==> dec_questions(data@, pos as int, n as int) is None,
        r matches Err(e) ==> e == DnsError::Parse,
{
    let mut acc: Vec<Question> = Vec::new();
    let mut cur: usize = pos;
    let ghost n0 = n as int;
    for k in 0..n
        invariant
            pos <= cur <= data@.len(),
            acc@.len() == k,
            forall|i: int| 0 <= i < acc@.len() ==> (#[trigger] acc@[i]).wf(),
            dec_questions(data@, pos as int, n as int) == (match dec_questions(
                data@,
                cur as int,
                n - k,
            ) {
                None => None::<(Seq<crate::question::QuestionV>, int)>,
                Some((qs, end)) => Some((questions_view(acc@) + qs, end)),
            }),
    {
        let (q, p) = match parse_question(data, cur) {
            Ok(x) => x,
            Err(e) => {
                return Err(e);
            },
        };
        let ghost old_acc = acc@;
        acc.push(q);
        proof {
            assert(questions_view(acc@) =~= questions_view(old_acc).push(q@));
            match dec_questions(data@, p as int, n - k - 1) {
                None => {},
                Some((qs, end)) => {
                    assert(questions_view(old_acc).push(q@) + qs =~= questions_view(old_acc) + (
                    seq![q@] + qs));
                },
            }
        }
        cur = p;
    }
    proof {
        assert(questions_view(acc@) + Seq::<crate::question::QuestionV>::empty() =~= questions_view(
            acc@,
        ));
    }
    Ok((acc, cur))
}

/// Parses `n` resource records in sequence. Returns exactly what the
/// specification decoder yields.
pub fn parse_rrs(data: &[u8], pos: usize, n: u16) -> (r: Result<
    (Vec<ResourceRecord>, usize),
    DnsError,
>)
    requires
        pos <= data@.len(),
    ensures
        r matches Ok(p) ==> dec_rrs(data@, pos as int, n as int) == Some(
            (records_view(p.0@), p.1 as int),
        ) && (forall|i: int| 0 <= i < p.0@.len() ==> (#[trigger] p.0@[i]).wf()) && pos <= p.1
            <= data@.len(),
        r is Err ==> dec_rrs(data@, pos as int, n as int) is None,
        r matches Err(e) ==> e == DnsError::Parse,
{
    let mut acc: Vec<ResourceRecord> = Vec::new();
    let mut cur: usize = pos;
    for k in 0..n
        invariant
            pos <= cur <= data@.len(),
            acc@.len() == k,
            forall|i: int| 0 <= i < acc@.len() ==> (#[trigger] acc@[i]).wf(),
            dec_rrs(data@, pos as int, n as int) == (match dec_rrs(data@, cur as int, n - k) {
                None => None::<(Seq<crate::rr::ResourceRecordV>, int)>,
                Some((rs, end)) => Some((records_view(acc@) + rs, end)),
            }),
    {
        let (rr, p) = match parse_rr(data, cur) {
            Ok(x) => x,
            Err(e) => {
                return Err(e);
            },
        };
        let ghost old_acc = acc@;
        acc.push(rr);
        proof {
            assert(records_view(acc@) =~= records_view(old_acc).push(rr@));
            match dec_rrs(data@, p as int, n - k - 1) {
                None => {},
                Some((rs, end)) => {
                    assert(records_view(old_acc).push(rr@) + rs =~= records_view(old_acc) + (
                    seq![rr@] + rs));
                },
            }
        }
        cur = p;
    }
    proof {
        assert(records_view(acc@) + Seq::<crate::rr::ResourceRecordV>::empty() =~= records_view(
            acc@,
        ));
    }
    Ok((acc, cur))
}

/// The value of an optional EDNS0 record.
pub open spec fn opt_view(o: Option<OptRecord>) -> Option<OptRecordV> {
    match o {
        Some(x) => Some(x@),
        None => None,
    }
}

/// Parses `n` additional items: resource records with at most one EDNS0
/// pseudo-record among them. Returns exactly what the specification
/// decoder yields.
pub fn parse_additional(data: &[u8], pos: usize, n: u16) -> (r: Result<
    (Vec<ResourceRecord>, Option<OptRecord>, usize),
    DnsError,
>)
    requires
        pos <= data@.len(),
    ensures
        r matches Ok(p) ==> dec_additional(data@, pos as int, n as int) == Some(
            (records_view(p.0@), opt_view(p.1), p.2 as int),
        ) && (forall|i: int| 0 <= i < p.0@.len() ==> (#[trigger] p.0@[i]).wf()) && (match p.1 {
            Some(o) => o.data.wf(),
            None => true,
        }) && pos <= p.2 <= data@.len(),
        r is Err ==> dec_additional(data@, pos as int, n as int) is None,
        r matches Err(e) ==> e == DnsError::Parse,
{
    let mut acc: Vec<ResourceRecord> = Vec::new();
    let mut opt_acc: Option<OptRecord> = None;
    let mut cur: usize = pos;
    for k in 0..n
        invariant
            pos <= cur <= data@.len(),
            forall|i: int| 0 <= i < acc@.len() ==> (#[trigger] acc@[i]).wf(),
            match opt_acc {
                Some(o) => o.data.wf(),
                None => true,
            },
            dec_additional(data@, pos as int, n as int) == (match dec_additional(
                data@,
                cur as int,
                n - k,
            ) {
                None => None::<(Seq<crate::rr::ResourceRecordV>, Option<OptRecordV>, int)>,
                Some((rs, o2, end)) => if opt_view(opt_acc) is Some && o2 is Some {
                    None
                } else {
                    Some(
                        (
                            records_view(acc@) + rs,
                            if opt_view(opt_acc) is Some {
                                opt_view(opt_acc)
                            } else {
                                o2
                            },
                            end,
                        ),
                    )
                },
            }),
    {
        let (nm, p) = match parse_name(data, cur) {
            Ok(x) => x,
            Err(e) => {
                return Err(e);
            },
        };
        if data.len() < 2 || p > data.len() - 2 {
            return Err(DnsError::Parse);
        }
        let t = read_u16(data, p);
        if t == 41 {
            if !nm.is_root() {
                return Err(DnsError::Parse);
            }
            if data.len() < 10 || p > data.len() - 10 {
                return Err(DnsError::Parse);
            }
            let rdlen = read_u16(data, p + 8) as usize;
            if rdlen > data.len() - (p + 10) {
                return Err(DnsError::Parse);
            }
            let o = OptRecord {
                udp: read_u16(data, p + 2),
                extrcode: data[p + 4],
                version: data[p + 5],
                flags: read_u16(data, p + 6),
                data: RRData::Unknown(slice_to_vec(slice_subrange(data, p + 10, p + 10 + rdlen))),
            };
            proof {
                assert(dec_opt_fields(data@, p as int) == Some((o@, (p + 10 + rdlen) as int)));
            }
            if opt_acc.is_some() {
                return Err(DnsError::Parse);
            }
            opt_acc = Some(o);
            cur = p + 10 + rdlen;
        } else {
            let (rr, p2) = match parse_rr(data, cur) {
                Ok(x) => x,
                Err(e) => {
                    return Err(e);
                },
            };
            let ghost old_acc = acc@;
            acc.push(rr);
            proof {
                assert(records_view(acc@) =~= records_view(old_acc).push(rr@));
                match dec_additional(data@, p2 as int, n - k - 1) {
                    None => {},
                    Some((rs, o2, end)) => {
                        assert(records_view(old_acc).push(rr@) + rs =~= records_view(old_acc) + (
                        seq![rr@] + rs));
                    },
                }
            }
            cur = p2;
        }
    }
    proof {
        assert(records_view(acc@) + Seq::<crate::rr::ResourceRecordV>::empty() =~= records_view(
            acc@,
        ));
    }
    Ok((acc, opt_acc, cur))
}

/// Parses a whole datagram into a message. Returns `Ok` exactly when the
/// specification decoder accepts the bytes, and then returns exactly the
/// message it yields.
pub fn parse_message(data: &[u8]) -> (r: Result<Message, DnsError>)
    ensures
        r matches Ok(m) ==> dec_message(data@) == Some(m@) && m.wf(),
        r is Err <==> dec_message(data@) is None,
        r matches Err(e) ==> e == DnsError::Parse,
{
    if data.len() < 12 {
        return Err(DnsError::Parse);
    }
    let id = read_u16(data, 0);
    let f = read_u16(data, 2);
    let head = Header {
        id,
        query: f < 32768,
        opcode: crate::enums::Opcode::from_code(((f / 2048) % 16) as u8),
        authoritative: (f / 1024) % 2 == 1,
        truncated: (f / 512) % 2 == 1,
        recursion_desired: (f / 256) % 2 == 1,
        recursion_available: (f / 128) % 2 == 1,
        authenticated_data: (f / 32) % 2 == 1,
        checking_disabled: (f / 16) % 2 == 1,
        response_code: crate::enums::ResponseCode::from_code((f % 16) as u8),
    };
    proof {
        assert(head == crate::wire::dec_header(id, f));
    }
    let qd = read_u16(data, 4);
    let an = read_u16(data, 6);
    let ns = read_u16(data, 8);
    let ar = read_u16(data, 10);
    let (questions, p1) = match parse_questions(data, 12, qd) {
        Ok(x) => x,
        Err(e) => {
            return Err(e);
        },
    };
    let (answers, p2) = match parse_rrs(data, p1, an) {
        Ok(x) => x,
        Err(e) => {
            return Err(e);
        },
    };
    let (authority, p3) = match parse_rrs(data, p2, ns) {
        Ok(x) => x,
        Err(e) => {
            return Err(e);
        },
    };
    let (additional, opt, p4) = match parse_additional(data, p3, ar) {
        Ok(x) => x,
        Err(e) => {
            return Err(e);
        },
    };
    if p4 != data.len() {
        return Err(DnsError::Parse);
    }
    Ok(Message::from_parts(head, questions, answers, authority, additional, opt))
}

} // verus!
