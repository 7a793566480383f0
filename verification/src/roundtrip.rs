//! The round-trip laws of the wire codec: decoding an encoded value
//! recovers it exactly, for every value whose encoding loses nothing.
//! These are stated over the same specification functions the executable
//! codec's contracts use, so they carry over to `serialize` and `parse`.

use vstd::prelude::*;

use crate::enums::{spec_class_code, spec_opcode_code, spec_qclass_from_code, spec_qtype_from_code,
    spec_rcode_code, spec_rrclass_from_code, spec_type_code, Class};
use crate::message::{Header, MessageV};
use crate::question::QuestionV;
use crate::rr::{OptRecordV, RRDataV, ResourceRecordV};
use crate::wire::{additional_count, dec_additional, dec_header, dec_message, dec_name,
    dec_opt_fields, dec_question, dec_questions, dec_rr, dec_rrdata, dec_rrs, dec_u16, dec_u32,
    enc_flags, enc_ipv6, enc_message, enc_name, enc_opt, enc_question, enc_questions, enc_rr,
    enc_rrdata, enc_rrs, enc_u16, enc_u32, lemma_dec_enc_name, question_class_word,
    record_class_word, rrdata_typenum, wf_header_round, wf_message_round, wf_name_wire,
    wf_opt_round, wf_question_round, wf_rr_round, wf_rrdata_round};

verus! {

/// Splits a buffer slice known to hold a concatenation into its parts.
proof fn lemma_concat_split(bytes: Seq<u8>, pos: int, a: Seq<u8>, b: Seq<u8>)
    requires
        0 <= pos,
        pos + a.len() + b.len() <= bytes.len(),
        bytes.subrange(pos, pos + a.len() + b.len()) == a + b,
    ensures
        bytes.subrange(pos, pos + a.len() as int) == a,
        bytes.subrange(pos + a.len() as int, pos + a.len() + b.len()) == b,
{
    let whole = bytes.subrange(pos, pos + a.len() + b.len());
    assert(bytes.subrange(pos, pos + a.len() as int) =~= a) by {
        assert(forall|i: int|
            0 <= i < a.len() ==> bytes.subrange(pos, pos + a.len() as int)[i] == whole[i]
                && whole[i] == (a + b)[i]);
    }
    assert(bytes.subrange(pos + a.len() as int, pos + a.len() + b.len()) =~= b) by {
        assert forall|i: int| 0 <= i < b.len() implies bytes.subrange(
            pos + a.len() as int,
            pos + a.len() + b.len(),
        )[i] == b[i] by {
            assert(bytes.subrange(pos + a.len() as int, pos + a.len() + b.len())[i] == bytes[pos
                + a.len() + i]);
            assert(whole[a.len() + i] == bytes[pos + a.len() + i]);
            assert((a + b)[a.len() + i] == b[i]);
        }
    }
}

/// Two bytes written from a 16-bit value read back as that value.
proof fn lemma_dec_enc_u16(x: u16, bytes: Seq<u8>, pos: int)
    requires
        0 <= pos,
        pos + 2 <= bytes.len(),
        bytes.subrange(pos, pos + 2) == enc_u16(x),
    ensures
        dec_u16(bytes, pos) == x,
{
    assert(bytes[pos] == enc_u16(x)[0] && bytes[pos + 1] == enc_u16(x)[1]) by {
        assert(bytes.subrange(pos, pos + 2)[0] == bytes[pos]);
        assert(bytes.subrange(pos, pos + 2)[1] == bytes[pos + 1]);
    }
    assert((x / 256) * 256 + x % 256 == x);
}

/// Four bytes written from a 32-bit value read back as that value.
proof fn lemma_dec_enc_u32(x: u32, bytes: Seq<u8>, pos: int)
    requires
        0 <= pos,
        pos + 4 <= bytes.len(),
        bytes.subrange(pos, pos + 4) == enc_u32(x),
    ensures
        dec_u32(bytes, pos) == x,
{
    assert(bytes[pos] == enc_u32(x)[0] && bytes[pos + 1] == enc_u32(x)[1] && bytes[pos + 2]
        == enc_u32(x)[2] && bytes[pos + 3] == enc_u32(x)[3]) by {
        assert(bytes.subrange(pos, pos + 4)[0] == bytes[pos]);
        assert(bytes.subrange(pos, pos + 4)[1] == bytes[pos + 1]);
        assert(bytes.subrange(pos, pos + 4)[2] == bytes[pos + 2]);
        assert(bytes.subrange(pos, pos + 4)[3] == bytes[pos + 3]);
    }
    assert((x / 0x1000000) * 0x1000000 + ((x / 0x10000) % 256) * 0x10000 + ((x / 256) % 256) * 256
        + x % 256 == x) by (bit_vector);
}

/// Header bit-packing law: for every header whose opcode, flags and
/// response code lie within the ranges the wire layout carries, encoding
/// the flags word and decoding it recovers every field exactly.
pub proof fn lemma_header_roundtrip(h: Header)
    requires
        wf_header_round(h),
    ensures
        dec_header(h.id, enc_flags(h)) == h,
{
    let qw: u16 = if h.query {
        0
    } else {
        32768
    };
    let op: u16 = spec_opcode_code(h.opcode);
    let aa: u16 = if h.authoritative {
        1024
    } else {
        0
    };
    let tc: u16 = if h.truncated {
        512
    } else {
        0
    };
    let rd: u16 = if h.recursion_desired {
        256
    } else {
        0
    };
    let ra: u16 = if h.recursion_available {
        128
    } else {
        0
    };
    let rc: u16 = spec_rcode_code(h.response_code);
    assert(op <= 2);
    assert(rc <= 5);
    let f = enc_flags(h);
    assert(f == (qw + op * 2048 + aa + tc + rd + ra + rc) as u16);
    assert({
        &&& (f / 32768 == 0) == (qw == 0)
        &&& (f / 2048) % 16 == op
        &&& ((f / 1024) % 2 == 1) == (aa == 1024)
        &&& ((f / 512) % 2 == 1) == (tc == 512)
        &&& ((f / 256) % 2 == 1) == (rd == 256)
        &&& ((f / 128) % 2 == 1) == (ra == 128)
        &&& (f / 32) % 2 == 0
        &&& (f / 16) % 2 == 0
        &&& f % 16 == rc
    }) by (bit_vector)
        requires
            (qw == 0 || qw == 32768),
            op <= 2,
            (aa == 0 || aa == 1024),
            (tc == 0 || tc == 512),
            (rd == 0 || rd == 256),
            (ra == 0 || ra == 128),
            rc <= 5,
            f == (qw + op * 2048 + aa + tc + rd + ra + rc) as u16,
    ;
    let d = dec_header(h.id, f);
    assert(d.opcode == h.opcode) by {
        assert(crate::enums::spec_opcode_from_code(op as u8) == h.opcode);
    }
    assert(d.response_code == h.response_code) by {
        assert(crate::enums::spec_rcode_from_code(rc as u8) == h.response_code);
    }
}

/// A class code is below the unicast/multicast bit.
proof fn lemma_class_code_small(c: Class)
    ensures
        spec_class_code(c) <= 255,
{
}

/// The class word of a question recovers the class and the preference
/// bit.
proof fn lemma_question_class_word(q: QuestionV)
    ensures
        question_class_word(q) % 32768 == spec_class_code(q.qclass),
        (question_class_word(q) >= 32768) == q.prefer_unicast,
{
    lemma_class_code_small(q.qclass);
}

/// Encoding then decoding a round-trippable question recovers it,
/// wherever its encoding stands in a larger buffer.
proof fn lemma_dec_enc_question(q: QuestionV, bytes: Seq<u8>, pos: int)
    requires
        wf_question_round(q),
        0 <= pos,
        pos + enc_question(q).len() <= bytes.len(),
        bytes.subrange(pos, pos + enc_question(q).len() as int) == enc_question(q),
    ensures
        dec_question(bytes, pos) == Some((q, pos + enc_question(q).len() as int)),
{
    let en = enc_name(q.name);
    let et = enc_u16(spec_type_code(q.qtype));
    let ec = enc_u16(question_class_word(q));
    let e = enc_question(q);
    assert(e =~= en + (et + ec));
    lemma_concat_split(bytes, pos, en, et + ec);
    lemma_dec_enc_name(q.name, bytes, pos);
    let p = pos + en.len() as int;
    assert(bytes.subrange(p, p + 4) =~= et + ec);
    lemma_concat_split(bytes, p, et, ec);
    lemma_dec_enc_u16(spec_type_code(q.qtype), bytes, p);
    lemma_dec_enc_u16(question_class_word(q), bytes, p + 2);
    assert(spec_qtype_from_code(spec_type_code(q.qtype)) == Some(q.qtype));
    lemma_question_class_word(q);
    assert(spec_qclass_from_code(spec_class_code(q.qclass)) == Some(q.qclass));
}

/// Encoding then decoding a section of round-trippable questions
/// recovers it.
proof fn lemma_dec_enc_questions(qs: Seq<QuestionV>, bytes: Seq<u8>, pos: int)
    requires
        forall|i: int| 0 <= i < qs.len() ==> wf_question_round(#[trigger] qs[i]),
        0 <= pos,
        pos + enc_questions(qs).len() <= bytes.len(),
        bytes.subrange(pos, pos + enc_questions(qs).len() as int) == enc_questions(qs),
    ensures
        dec_questions(bytes, pos, qs.len() as int) == Some(
            (qs, pos + enc_questions(qs).len() as int),
        ),
    decreases qs.len(),
{
    if qs.len() == 0 {
        assert(qs =~= Seq::<QuestionV>::empty());
    } else {
        let q0 = qs[0];
        let rest = qs.subrange(1, qs.len() as int);
        let e0 = enc_question(q0);
        let erest = enc_questions(rest);
        assert(enc_questions(qs) == e0 + erest);
        lemma_concat_split(bytes, pos, e0, erest);
        lemma_dec_enc_question(q0, bytes, pos);
        let p = pos + e0.len() as int;
        lemma_dec_enc_questions(rest, bytes, p);
        assert(seq![q0] + rest =~= qs);
    }
}

/// A name encoded as exactly a buffer decodes from its start to its end.
proof fn lemma_dec_name_exact(nv: Seq<Seq<u8>>, b: Seq<u8>, pos: int)
    requires
        wf_name_wire(nv),
        0 <= pos,
        pos + enc_name(nv).len() == b.len(),
        b.subrange(pos, b.len() as int) == enc_name(nv),
    ensures
        dec_name(b, pos) == Some((nv, b.len() as int)),
{
    lemma_dec_enc_name(nv, b, pos);
}

/// Encoding then decoding a round-trippable IPv6 payload recovers it.
#[verifier::spinoff_prover]
proof fn lemma_dec_enc_rrdata_aaaa(a: crate::rr::Ipv6Address)
    ensures
        dec_rrdata(28, enc_ipv6(a)) == Some(RRDataV::AAAA(a)),
{
    let b = enc_ipv6(a);
    let lit = seq![
        (a.s0 / 256) as u8,
        (a.s0 % 256) as u8,
        (a.s1 / 256) as u8,
        (a.s1 % 256) as u8,
        (a.s2 / 256) as u8,
        (a.s2 % 256) as u8,
        (a.s3 / 256) as u8,
        (a.s3 % 256) as u8,
        (a.s4 / 256) as u8,
        (a.s4 % 256) as u8,
        (a.s5 / 256) as u8,
        (a.s5 % 256) as u8,
        (a.s6 / 256) as u8,
        (a.s6 % 256) as u8,
        (a.s7 / 256) as u8,
        (a.s7 % 256) as u8,
    ];
    assert(b =~= lit);
    assert(dec_u16(b, 0) == a.s0 && dec_u16(b, 2) == a.s1 && dec_u16(b, 4) == a.s2 && dec_u16(b, 6)
        == a.s3 && dec_u16(b, 8) == a.s4 && dec_u16(b, 10) == a.s5 && dec_u16(b, 12) == a.s6
        && dec_u16(b, 14) == a.s7);
}

/// Encoding then decoding a round-trippable service payload recovers it.
#[verifier::spinoff_prover]
proof fn lemma_dec_enc_rrdata_srv(s: crate::rr::SrvRecordV)
    requires
        wf_rrdata_round(RRDataV::SRV(s)),
    ensures
        dec_rrdata(33, enc_rrdata(RRDataV::SRV(s))) == Some(RRDataV::SRV(s)),
{
    let b = enc_rrdata(RRDataV::SRV(s));
    let e1 = enc_u16(s.priority);
    let e2 = enc_u16(s.weight);
    let e3 = enc_u16(s.port);
    let en = enc_name(s.target);
    assert(b.subrange(0, b.len() as int) =~= b);
    lemma_concat_split(b, 0, e1 + e2 + e3, en);
    lemma_concat_split(b, 0, e1 + e2, e3);
    lemma_concat_split(b, 0, e1, e2);
    lemma_dec_enc_u16(s.priority, b, 0);
    lemma_dec_enc_u16(s.weight, b, 2);
    lemma_dec_enc_u16(s.port, b, 4);
    lemma_dec_name_exact(s.target, b, 6);
}

/// Encoding then decoding a round-trippable authority payload recovers
/// it.
#[verifier::spinoff_prover]
#[verifier::rlimit(100)]
proof fn lemma_dec_enc_rrdata_soa(s: crate::rr::SoaRecordV)
    requires
        wf_rrdata_round(RRDataV::SOA(s)),
    ensures
        dec_rrdata(6, enc_rrdata(RRDataV::SOA(s))) == Some(RRDataV::SOA(s)),
{
    let b = enc_rrdata(RRDataV::SOA(s));
    let e1 = enc_name(s.primary_ns);
    let e2 = enc_name(s.mailbox);
    let e3 = enc_u32(s.serial);
    let e4 = enc_u32(s.refresh);
    let e5 = enc_u32(s.retry);
    let e6 = enc_u32(s.expire);
    let e7 = enc_u32(s.min_ttl);
    assert(b.subrange(0, b.len() as int) =~= b);
    lemma_concat_split(b, 0, e1 + e2 + e3 + e4 + e5 + e6, e7);
    lemma_concat_split(b, 0, e1 + e2 + e3 + e4 + e5, e6);
    lemma_concat_split(b, 0, e1 + e2 + e3 + e4, e5);
    lemma_concat_split(b, 0, e1 + e2 + e3, e4);
    lemma_concat_split(b, 0, e1 + e2, e3);
    lemma_concat_split(b, 0, e1, e2);
    let p1 = e1.len() as int;
    let p2 = p1 + e2.len() as int;
    lemma_dec_enc_name(s.primary_ns, b, 0);
    lemma_dec_enc_name(s.mailbox, b, p1);
    lemma_dec_enc_u32(s.serial, b, p2);
    lemma_dec_enc_u32(s.refresh, b, p2 + 4);
    lemma_dec_enc_u32(s.retry, b, p2 + 8);
    lemma_dec_enc_u32(s.expire, b, p2 + 12);
    lemma_dec_enc_u32(s.min_ttl, b, p2 + 16);
    assert(p2 + 20 == b.len());
}

/// Encoding then decoding a round-trippable mail-exchange payload
/// recovers it.
#[verifier::spinoff_prover]
proof fn lemma_dec_enc_rrdata_mx(m: crate::rr::MxRecordV)
    requires
        wf_rrdata_round(RRDataV::MX(m)),
    ensures
        dec_rrdata(15, enc_rrdata(RRDataV::MX(m))) == Some(RRDataV::MX(m)),
{
    let b = enc_rrdata(RRDataV::MX(m));
    let e1 = enc_u16(m.preference);
    let en = enc_name(m.exchange);
    assert(b.subrange(0, b.len() as int) =~= b);
    lemma_concat_split(b, 0, e1, en);
    lemma_dec_enc_u16(m.preference, b, 0);
    lemma_dec_name_exact(m.exchange, b, 2);
}

/// Encoding then decoding a round-trippable payload recovers it.
#[verifier::spinoff_prover]
proof fn lemma_dec_enc_rrdata(d: RRDataV)
    requires
        wf_rrdata_round(d),
    ensures
        dec_rrdata(rrdata_typenum(d), enc_rrdata(d)) == Some(d),
{
    let b = enc_rrdata(d);
    match d {
        RRDataV::CNAME(n) => {
            assert(b.subrange(0, b.len() as int) =~= enc_name(n));
            lemma_dec_name_exact(n, b, 0);
        },
        RRDataV::NS(n) => {
            assert(b.subrange(0, b.len() as int) =~= enc_name(n));
            lemma_dec_name_exact(n, b, 0);
        },
        RRDataV::PTR(n) => {
            assert(b.subrange(0, b.len() as int) =~= enc_name(n));
            lemma_dec_name_exact(n, b, 0);
        },
        RRDataV::A(a) => {
            assert(b.len() == 4);
            assert(b[0] == a.o0 && b[1] == a.o1 && b[2] == a.o2 && b[3] == a.o3);
        },
        RRDataV::AAAA(a) => {
            lemma_dec_enc_rrdata_aaaa(a);
        },
        RRDataV::SRV(s) => {
            lemma_dec_enc_rrdata_srv(s);
        },
        RRDataV::SOA(s) => {
            lemma_dec_enc_rrdata_soa(s);
        },
        RRDataV::MX(m) => {
            lemma_dec_enc_rrdata_mx(m);
        },
        RRDataV::TXT(_) => {},
        RRDataV::Unknown(_) => {},
    }
}

/// The class word of a record recovers the class and the
/// multicast-unique bit.
proof fn lemma_record_class_word(r: ResourceRecordV)
    ensures
        record_class_word(r) % 32768 == spec_class_code(r.class),
        (record_class_word(r) >= 32768) == r.multicast_unique,
{
    lemma_class_code_small(r.class);
}

/// Encoding then decoding a round-trippable record recovers it, wherever
/// its encoding stands in a larger buffer. The name and type number
/// facts are stated too, as the additional-section decoder re-examines
/// them.
#[verifier::rlimit(100)]
#[verifier::spinoff_prover]
proof fn lemma_dec_enc_rr(r: ResourceRecordV, bytes: Seq<u8>, pos: int)
    requires
        wf_rr_round(r),
        0 <= pos,
        pos + enc_rr(r).len() <= bytes.len(),
        bytes.subrange(pos, pos + enc_rr(r).len() as int) == enc_rr(r),
    ensures
        dec_rr(bytes, pos) == Some((r, pos + enc_rr(r).len() as int)),
        dec_name(bytes, pos) == Some((r.name, pos + enc_name(r.name).len() as int)),
        pos + enc_name(r.name).len() + 2 <= bytes.len(),
        dec_u16(bytes, pos + enc_name(r.name).len() as int) == rrdata_typenum(r.data),
        rrdata_typenum(r.data) != 41,
{
    let en = enc_name(r.name);
    let et = enc_u16(rrdata_typenum(r.data));
    let ec = enc_u16(record_class_word(r));
    let ettl = enc_u32(r.ttl);
    let pl = enc_rrdata(r.data);
    let el = enc_u16(pl.len() as u16);
    lemma_concat_split(bytes, pos, en + et + ec + ettl + el, pl);
    lemma_concat_split(bytes, pos, en + et + ec + ettl, el);
    lemma_concat_split(bytes, pos, en + et + ec, ettl);
    lemma_concat_split(bytes, pos, en + et, ec);
    lemma_concat_split(bytes, pos, en, et);
    lemma_dec_enc_name(r.name, bytes, pos);
    let p = pos + en.len() as int;
    lemma_dec_enc_u16(rrdata_typenum(r.data), bytes, p);
    lemma_dec_enc_u16(record_class_word(r), bytes, p + 2);
    lemma_dec_enc_u32(r.ttl, bytes, p + 4);
    lemma_dec_enc_u16(pl.len() as u16, bytes, p + 8);
    lemma_dec_enc_rrdata(r.data);
    lemma_record_class_word(r);
    assert(spec_rrclass_from_code(spec_class_code(r.class)) == Some(r.class));
    assert(rrdata_typenum(r.data) != 41);
    assert(dec_u16(bytes, p + 8) as int == pl.len());
    assert(bytes.subrange(p + 10, p + 10 + pl.len() as int) == pl);
}

/// Encoding then decoding a section of round-trippable records recovers
/// it.
proof fn lemma_dec_enc_rrs(rs: Seq<ResourceRecordV>, bytes: Seq<u8>, pos: int)
    requires
        forall|i: int| 0 <= i < rs.len() ==> wf_rr_round(#[trigger] rs[i]),
        0 <= pos,
        pos + enc_rrs(rs).len() <= bytes.len(),
        bytes.subrange(pos, pos + enc_rrs(rs).len() as int) == enc_rrs(rs),
    ensures
        dec_rrs(bytes, pos, rs.len() as int) == Some((rs, pos + enc_rrs(rs).len() as int)),
    decreases rs.len(),
{
    if rs.len() == 0 {
        assert(rs =~= Seq::<ResourceRecordV>::empty());
    } else {
        let r0 = rs[0];
        let rest = rs.subrange(1, rs.len() as int);
        let e0 = enc_rr(r0);
        let erest = enc_rrs(rest);
        assert(enc_rrs(rs) == e0 + erest);
        lemma_concat_split(bytes, pos, e0, erest);
        lemma_dec_enc_rr(r0, bytes, pos);
        let p = pos + e0.len() as int;
        lemma_dec_enc_rrs(rest, bytes, p);
        assert(seq![r0] + rest =~= rs);
    }
}

/// Encoding then decoding a round-trippable EDNS0 pseudo-record recovers
/// it, wherever its encoding stands in a larger buffer.
#[verifier::rlimit(100)]
#[verifier::spinoff_prover]
proof fn lemma_dec_enc_opt(o: OptRecordV, bytes: Seq<u8>, pos: int)
    requires
        wf_opt_round(o),
        0 <= pos,
        pos + enc_opt(o).len() <= bytes.len(),
        bytes.subrange(pos, pos + enc_opt(o).len() as int) == enc_opt(o),
    ensures
        dec_name(bytes, pos) == Some((Seq::<Seq<u8>>::empty(), pos + 1)),
        pos + 3 <= bytes.len(),
        dec_u16(bytes, pos + 1) == 41,
        dec_opt_fields(bytes, pos + 1) == Some((o, pos + enc_opt(o).len() as int)),
{
    let e0: Seq<u8> = seq![0u8];
    let et = enc_u16(41);
    let eu = enc_u16(o.udp);
    let ev: Seq<u8> = seq![o.extrcode, o.version];
    let ef = enc_u16(o.flags);
    let pl = enc_rrdata(o.data);
    let el = enc_u16(pl.len() as u16);
    lemma_concat_split(bytes, pos, e0 + et + eu + ev + ef + el, pl);
    lemma_concat_split(bytes, pos, e0 + et + eu + ev + ef, el);
    lemma_concat_split(bytes, pos, e0 + et + eu + ev, ef);
    lemma_concat_split(bytes, pos, e0 + et + eu, ev);
    lemma_concat_split(bytes, pos, e0 + et, eu);
    lemma_concat_split(bytes, pos, e0, et);
    assert(bytes[pos] == 0) by {
        assert(bytes.subrange(pos, pos + 1)[0] == bytes[pos]);
    }
    lemma_dec_enc_u16(41, bytes, pos + 1);
    lemma_dec_enc_u16(o.udp, bytes, pos + 3);
    assert(bytes[pos + 5] == o.extrcode && bytes[pos + 6] == o.version) by {
        assert(bytes.subrange(pos + 5, pos + 7)[0] == bytes[pos + 5]);
        assert(bytes.subrange(pos + 5, pos + 7)[1] == bytes[pos + 6]);
    }
    lemma_dec_enc_u16(o.flags, bytes, pos + 7);
    lemma_dec_enc_u16(pl.len() as u16, bytes, pos + 9);
    assert(dec_u16(bytes, pos + 9) as int == pl.len());
    assert(bytes.subrange(pos + 11, pos + 11 + pl.len() as int) == pl);
    assert(o.data == RRDataV::Unknown(pl));
}

/// A lone EDNS0 pseudo-record decodes as one additional item.
#[verifier::rlimit(100)]
#[verifier::spinoff_prover]
proof fn lemma_dec_opt_item(o: OptRecordV, bytes: Seq<u8>, pos: int)
    requires
        wf_opt_round(o),
        0 <= pos,
        pos + enc_opt(o).len() <= bytes.len(),
        bytes.subrange(pos, pos + enc_opt(o).len() as int) == enc_opt(o),
    ensures
        dec_additional(bytes, pos, 1) == Some(
            (Seq::<ResourceRecordV>::empty(), Some(o), pos + enc_opt(o).len() as int),
        ),
{
    lemma_dec_enc_opt(o, bytes, pos);
    let p2 = pos + enc_opt(o).len() as int;
    assert(dec_additional(bytes, p2, 0) == Some(
        (Seq::<ResourceRecordV>::empty(), None::<OptRecordV>, p2),
    ));
}

/// Encoding then decoding round-trippable additional items recovers
/// them: the records in order, and the pseudo-record standing last.
#[verifier::rlimit(100)]
#[verifier::spinoff_prover]
proof fn lemma_dec_enc_additional(
    rs: Seq<ResourceRecordV>,
    opt: Option<OptRecordV>,
    bytes: Seq<u8>,
    pos: int,
)
    requires
        forall|i: int| 0 <= i < rs.len() ==> wf_rr_round(#[trigger] rs[i]),
        match opt {
            Some(o) => wf_opt_round(o),
            None => true,
        },
        0 <= pos,
        pos + enc_rrs(rs).len() + opt_enc(opt).len() <= bytes.len(),
        bytes.subrange(pos, pos + enc_rrs(rs).len() + opt_enc(opt).len()) == enc_rrs(rs) + opt_enc(
            opt,
        ),
    ensures
        dec_additional(bytes, pos, rs.len() + opt_count(opt)) == Some(
            (rs, opt, pos + enc_rrs(rs).len() + opt_enc(opt).len()),
        ),
    decreases rs.len(),
{
    if rs.len() == 0 {
        assert(enc_rrs(rs) + opt_enc(opt) =~= opt_enc(opt));
        match opt {
            None => {
                assert(rs =~= Seq::<ResourceRecordV>::empty());
            },
            Some(o) => {
                assert(bytes.subrange(pos, pos + enc_opt(o).len() as int) == enc_opt(o));
                lemma_dec_opt_item(o, bytes, pos);
                assert(rs =~= Seq::<ResourceRecordV>::empty());
            },
        }
    } else {
        let r0 = rs[0];
        let rest = rs.subrange(1, rs.len() as int);
        let e0 = enc_rr(r0);
        let erest = enc_rrs(rest);
        assert(enc_rrs(rs) == e0 + erest);
        assert(enc_rrs(rs) + opt_enc(opt) =~= e0 + (erest + opt_enc(opt)));
        lemma_concat_split(bytes, pos, e0, erest + opt_enc(opt));
        lemma_dec_enc_rr(r0, bytes, pos);
        let p = pos + e0.len() as int;
        lemma_dec_enc_additional(rest, opt, bytes, p);
        assert(seq![r0] + rest =~= rs);
    }
}

/// The bytes the EDNS0 pseudo-record contributes, if one is present.
pub open spec fn opt_enc(opt: Option<OptRecordV>) -> Seq<u8> {
    match opt {
        Some(o) => enc_opt(o),
        None => Seq::empty(),
    }
}

/// How many additional items the pseudo-record contributes.
pub open spec fn opt_count(opt: Option<OptRecordV>) -> int {
    match opt {
        Some(_) => 1,
        None => 0,
    }
}

/// Round-trip law: for every message whose encoding loses nothing —
/// every name and payload fits its wire field, the header's opcode and
/// response code are among the modelled kinds, no payload is `Unknown`,
/// the pseudo-record's payload is its raw options — decoding the encoded
/// message recovers it exactly, field for field. The contracts of
/// `Message::serialize` and `Message::parse` are stated over the same
/// two functions, so a serialized message parses back to its own value.
#[verifier::rlimit(100)]
#[verifier::spinoff_prover]
pub proof fn lemma_message_roundtrip(m: MessageV)
    requires
        wf_message_round(m),
    ensures
        dec_message(enc_message(m)) == Some(m),
{
    let bytes = enc_message(m);
    let e1 = enc_u16(m.head.id);
    let e2 = enc_u16(enc_flags(m.head));
    let e3 = enc_u16(m.questions.len() as u16);
    let e4 = enc_u16(m.answers.len() as u16);
    let e5 = enc_u16(m.authority.len() as u16);
    let e6 = enc_u16(additional_count(m) as u16);
    let eq = enc_questions(m.questions);
    let ea = enc_rrs(m.answers);
    let en = enc_rrs(m.authority);
    let ed = enc_rrs(m.additional);
    let eo = opt_enc(m.opt);
    assert(bytes.subrange(0, bytes.len() as int) =~= bytes);
    assert(bytes.subrange(0, bytes.len() as int) == (e1 + e2 + e3 + e4 + e5 + e6 + eq + ea + en
        + ed) + eo) by {
        assert(bytes =~= (e1 + e2 + e3 + e4 + e5 + e6 + eq + ea + en + ed) + eo);
    }
    assert(bytes.subrange(0, bytes.len() as int) == (e1 + e2 + e3 + e4 + e5 + e6 + eq + ea + en) + (
    ed + eo)) by {
        assert(bytes =~= (e1 + e2 + e3 + e4 + e5 + e6 + eq + ea + en) + (ed + eo));
    }
    lemma_concat_split(bytes, 0, e1 + e2 + e3 + e4 + e5 + e6 + eq + ea + en, ed + eo);
    lemma_concat_split(bytes, 0, e1 + e2 + e3 + e4 + e5 + e6 + eq + ea, en);
    lemma_concat_split(bytes, 0, e1 + e2 + e3 + e4 + e5 + e6 + eq, ea);
    lemma_concat_split(bytes, 0, e1 + e2 + e3 + e4 + e5 + e6, eq);
    lemma_concat_split(bytes, 0, e1 + e2 + e3 + e4 + e5, e6);
    lemma_concat_split(bytes, 0, e1 + e2 + e3 + e4, e5);
    lemma_concat_split(bytes, 0, e1 + e2 + e3, e4);
    lemma_concat_split(bytes, 0, e1 + e2, e3);
    lemma_concat_split(bytes, 0, e1, e2);
    lemma_dec_enc_u16(m.head.id, bytes, 0);
    lemma_dec_enc_u16(enc_flags(m.head), bytes, 2);
    lemma_dec_enc_u16(m.questions.len() as u16, bytes, 4);
    lemma_dec_enc_u16(m.answers.len() as u16, bytes, 6);
    lemma_dec_enc_u16(m.authority.len() as u16, bytes, 8);
    lemma_dec_enc_u16(additional_count(m) as u16, bytes, 10);
    lemma_header_roundtrip(m.head);
    let p0 = 12int;
    lemma_dec_enc_questions(m.questions, bytes, p0);
    let p1 = p0 + eq.len() as int;
    lemma_dec_enc_rrs(m.answers, bytes, p1);
    let p2 = p1 + ea.len() as int;
    lemma_dec_enc_rrs(m.authority, bytes, p2);
    let p3 = p2 + en.len() as int;
    lemma_dec_enc_additional(m.additional, m.opt, bytes, p3);
    let p4 = p3 + ed.len() + eo.len();
    assert(p4 == bytes.len());
    assert(dec_u16(bytes, 4) as int == m.questions.len());
    assert(dec_u16(bytes, 6) as int == m.answers.len());
    assert(dec_u16(bytes, 8) as int == m.authority.len());
    assert(dec_u16(bytes, 10) as int == m.additional.len() + opt_count(m.opt));
}

/// A decoded question section has exactly the claimed count.
proof fn lemma_dec_questions_len(bytes: Seq<u8>, pos: int, n: int)
    requires
        dec_questions(bytes, pos, n) is Some,
    ensures
        dec_questions(bytes, pos, n).unwrap().0.len() == if n >= 0 {
            n
        } else {
            0
        },
    decreases n,
{
    if n > 0 {
        let (q, p) = dec_question(bytes, pos).unwrap();
        lemma_dec_questions_len(bytes, p, n - 1);
    }
}

/// A decoded record section has exactly the claimed count.
proof fn lemma_dec_rrs_len(bytes: Seq<u8>, pos: int, n: int)
    requires
        dec_rrs(bytes, pos, n) is Some,
    ensures
        dec_rrs(bytes, pos, n).unwrap().0.len() == if n >= 0 {
            n
        } else {
            0
        },
    decreases n,
{
    if n > 0 {
        let (r, p) = dec_rr(bytes, pos).unwrap();
        lemma_dec_rrs_len(bytes, p, n - 1);
    }
}

/// A decoded additional section accounts for the claimed count exactly,
/// the pseudo-record counting as one item.
proof fn lemma_dec_additional_len(bytes: Seq<u8>, pos: int, n: int)
    requires
        dec_additional(bytes, pos, n) is Some,
    ensures
        ({
            let (rs, opt, _) = dec_additional(bytes, pos, n).unwrap();
            rs.len() + (if opt is Some {
                1int
            } else {
                0
            }) == if n >= 0 {
                n
            } else {
                0
            }
        }),
    decreases n,
{
    if n > 0 {
        let (nv, p) = dec_name(bytes, pos).unwrap();
        if dec_u16(bytes, p) == 41 {
            let (o, p2) = dec_opt_fields(bytes, p).unwrap();
            lemma_dec_additional_len(bytes, p2, n - 1);
        } else {
            let (r, p2) = dec_rr(bytes, pos).unwrap();
            lemma_dec_additional_len(bytes, p2, n - 1);
        }
    }
}

/// Count invariant law: a message parses only when each header count
/// field equals the length of the section parsed for it, the EDNS0
/// pseudo-record counting as one additional record. A crafted buffer
/// whose counts disagree with its contents is rejected, since parsing is
/// count-driven and must consume the whole buffer.
pub proof fn lemma_parse_counts(bytes: Seq<u8>)
    requires
        dec_message(bytes) is Some,
    ensures
        ({
            let m = dec_message(bytes).unwrap();
            &&& m.questions.len() == dec_u16(bytes, 4)
            &&& m.answers.len() == dec_u16(bytes, 6)
            &&& m.authority.len() == dec_u16(bytes, 8)
            &&& m.additional.len() + (if m.opt is Some {
                1int
            } else {
                0
            }) == dec_u16(bytes, 10)
        }),
{
    let qd = dec_u16(bytes, 4) as int;
    let an = dec_u16(bytes, 6) as int;
    let ns = dec_u16(bytes, 8) as int;
    let ar = dec_u16(bytes, 10) as int;
    let (qs, p1) = dec_questions(bytes, 12, qd).unwrap();
    lemma_dec_questions_len(bytes, 12, qd);
    let (ans, p2) = dec_rrs(bytes, p1, an).unwrap();
    lemma_dec_rrs_len(bytes, p1, an);
    let (auth, p3) = dec_rrs(bytes, p2, ns).unwrap();
    lemma_dec_rrs_len(bytes, p2, ns);
    lemma_dec_additional_len(bytes, p3, ar);
}

} // verus!
