//! Forwarding-engine behaviour: id allocation, provenance validation,
//! and the end-to-end forwarding, malformed-datagram and refusal paths.

use dnis::{
    Class, Header, Ipv4Address, Message, Opcode, Question, RRData, ResourceRecord, ResponseCode,
    Server, SocketAddress, Type,
};

fn origin_addr() -> SocketAddress {
    SocketAddress::v4(10, 0, 0, 5, 4000)
}

fn upstream_addr() -> SocketAddress {
    SocketAddress::v4(8, 8, 8, 8, 53)
}

fn engine() -> Server {
    Server::new(vec![upstream_addr()])
}

fn query_bytes(id: u16, qname: &str, qtype: Type) -> Vec<u8> {
    let mut m = Message::new_query(id);
    m.add_question(Question::new_str(qname, Class::IN, qtype).unwrap());
    m.serialize().unwrap()
}

fn response_header(id: u16) -> Header {
    Header {
        id,
        query: false,
        opcode: Opcode::StandardQuery,
        authoritative: false,
        truncated: false,
        recursion_desired: true,
        recursion_available: true,
        authenticated_data: false,
        checking_disabled: false,
        response_code: ResponseCode::NoError,
    }
}

fn answer_record() -> ResourceRecord {
    ResourceRecord {
        name: dnis::Name::from_str("www.example.com").unwrap(),
        multicast_unique: false,
        class: Class::IN,
        ttl: 60,
        data: RRData::A(Ipv4Address::new(93, 184, 216, 34)),
    }
}

fn upstream_response_bytes(id: u16) -> Vec<u8> {
    let m = Message::from_parts(
        response_header(id),
        vec![Question::new_str("www.example.com", Class::IN, Type::A).unwrap()],
        vec![answer_record()],
        vec![],
        vec![],
        None,
    );
    m.serialize().unwrap()
}

#[test]
fn id_allocation_range_and_uniqueness() {
    let mut s = engine();
    let mut seen = std::collections::HashSet::new();
    for _ in 0..2000 {
        let id = s.udpseq_advance();
        assert!(id >= 1024);
        assert!(seen.insert(id), "allocated id repeated before wraparound");
    }
}

#[test]
fn forwards_query_and_relays_response() {
    // end-to-end: query in, rewritten forward out, response in,
    // original-id relay out
    let mut s = engine();
    let out = s.process_datagram(&query_bytes(0x1337, "www.example.com", Type::A), origin_addr());
    assert_eq!(out.len(), 1);
    assert_eq!(out[0].dest, upstream_addr());
    let fwd = Message::parse(&out[0].data).unwrap();
    let fwd_id = fwd.id();
    assert!(fwd_id >= 1024);
    assert!(fwd.is_request());
    assert_eq!(fwd.get_question(0).unwrap().name.to_string(), "www.example.com");
    assert_eq!(fwd.get_question(0).unwrap().qtype, Type::A);

    let out2 = s.process_datagram(&upstream_response_bytes(fwd_id), upstream_addr());
    assert_eq!(out2.len(), 1);
    assert_eq!(out2[0].dest, origin_addr());
    let relayed = Message::parse(&out2[0].data).unwrap();
    assert_eq!(relayed.id(), 0x1337);
    assert!(relayed.is_response());
    assert_eq!(relayed.num_answers(), 1);
    let a = relayed.get_answer(0).unwrap();
    assert_eq!(a.name.to_string(), "www.example.com");
    match &a.data {
        RRData::A(addr) => assert_eq!(*addr, Ipv4Address::new(93, 184, 216, 34)),
        _ => panic!("wrong answer payload"),
    }
}

#[test]
fn response_with_wrong_source_is_dropped() {
    let mut s = engine();
    let out = s.process_datagram(&query_bytes(0x2222, "www.example.com", Type::A), origin_addr());
    let fwd_id = Message::parse(&out[0].data).unwrap().id();

    // correct id, wrong source address: dropped silently
    let wrong_source = SocketAddress::v4(203, 0, 113, 9, 53);
    let out2 = s.process_datagram(&upstream_response_bytes(fwd_id), wrong_source);
    assert_eq!(out2.len(), 0);

    // the slot was consumed by the attempt: even the true upstream can
    // no longer answer
    let out3 = s.process_datagram(&upstream_response_bytes(fwd_id), upstream_addr());
    assert_eq!(out3.len(), 0);
}

#[test]
fn response_with_wrong_id_is_dropped() {
    let mut s = engine();
    let out = s.process_datagram(&query_bytes(0x3333, "www.example.com", Type::A), origin_addr());
    let fwd_id = Message::parse(&out[0].data).unwrap().id();

    // correct source, wrong id: that slot was never populated
    let other_id = if fwd_id == 65535 { 1024 } else { fwd_id + 1 };
    let out2 = s.process_datagram(&upstream_response_bytes(other_id), upstream_addr());
    assert_eq!(out2.len(), 0);

    // both correct: accepted
    let out3 = s.process_datagram(&upstream_response_bytes(fwd_id), upstream_addr());
    assert_eq!(out3.len(), 1);
    assert_eq!(Message::parse(&out3[0].data).unwrap().id(), 0x3333);
}

#[test]
fn response_slot_answers_at_most_once() {
    let mut s = engine();
    let out = s.process_datagram(&query_bytes(0x4444, "www.example.com", Type::A), origin_addr());
    let fwd_id = Message::parse(&out[0].data).unwrap().id();

    let out2 = s.process_datagram(&upstream_response_bytes(fwd_id), upstream_addr());
    assert_eq!(out2.len(), 1);
    // a replayed duplicate finds the slot cleared
    let out3 = s.process_datagram(&upstream_response_bytes(fwd_id), upstream_addr());
    assert_eq!(out3.len(), 0);
}

#[test]
fn malformed_datagram_gets_format_error() {
    // a 1-byte datagram: id unrecoverable, so zero
    let mut s = engine();
    let out = s.process_datagram(&[0xab], origin_addr());
    assert_eq!(out.len(), 1);
    assert_eq!(out[0].dest, origin_addr());
    assert!(out[0].data.len() >= 12);
    let err = Message::parse(&out[0].data).unwrap();
    assert_eq!(err.id(), 0);
    assert!(err.is_response());
    assert_eq!(err.header().response_code, ResponseCode::FormatError);
    assert!(err.header().recursion_available);
}

#[test]
fn malformed_datagram_recovers_id_from_first_two_bytes() {
    let mut s = engine();
    let out = s.process_datagram(&[0x12, 0x34, 0xff], origin_addr());
    assert_eq!(out.len(), 1);
    let err = Message::parse(&out[0].data).unwrap();
    assert_eq!(err.id(), 0x1234);
    assert_eq!(err.header().response_code, ResponseCode::FormatError);
}

#[test]
fn txt_query_is_refused_without_upstream_contact() {
    let mut s = engine();
    let out = s.process_datagram(&query_bytes(0xabcd, "secrets.example.com", Type::TXT), origin_addr());
    assert_eq!(out.len(), 1);
    // the reply goes straight back to the origin, not to the upstream
    assert_eq!(out[0].dest, origin_addr());
    let reply = Message::parse(&out[0].data).unwrap();
    assert_eq!(reply.id(), 0xabcd);
    assert_eq!(reply.header().response_code, ResponseCode::Refused);
    assert!(reply.header().recursion_available);

    // no correlation entry was made: an injected "response" with any id
    // from the upstream is dropped
    let out2 = s.process_datagram(&upstream_response_bytes(0xabcd), upstream_addr());
    assert_eq!(out2.len(), 0);
}

#[test]
fn id_wraparound_clamps_to_reserved_floor() {
    // walk the allocator to the top of the id space and over it: after
    // 65,535 the counter wraps and is clamped back to 1024
    let mut s = engine();
    let mut id = s.udpseq_advance();
    let mut steps = 0u32;
    while id != 65535 {
        id = s.udpseq_advance();
        steps += 1;
        assert!(steps <= 66000, "allocator never reached the top of the id space");
    }
    assert_eq!(s.udpseq_advance(), 1024);
    assert_eq!(s.udpseq_advance(), 1025);
}

#[test]
fn single_upstream_is_always_selected() {
    let s = engine();
    for _ in 0..32 {
        assert_eq!(s.select_upstream(), upstream_addr());
    }
}
