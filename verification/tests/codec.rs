//! Wire-codec behaviour: label and name validation, header bit-packing,
//! round trips for every payload kind, and parse failures on malformed
//! or miscounted buffers.

use dnis::rr::{parse_ipv4_text, RRDataMap};
use dnis::{
    Class, DnsError, Header, Ipv4Address, Ipv6Address, Label, Message, MxRecord, Name, Opcode,
    OptRecord, Question, RRData, ResourceRecord, ResponseCode, SoaRecord, SrvRecord, Type,
};

fn name(s: &str) -> Name {
    Name::from_str(s).unwrap()
}

fn query_header(id: u16) -> Header {
    Header {
        id,
        query: true,
        opcode: Opcode::StandardQuery,
        authoritative: false,
        truncated: false,
        recursion_desired: true,
        recursion_available: false,
        authenticated_data: false,
        checking_disabled: false,
        response_code: ResponseCode::NoError,
    }
}

#[test]
fn serialize_query() {
    let mut query = Message::new_query(0x1337);
    query.add_question(Question::new_str("www.google.com", Class::IN, Type::A).unwrap());
    let buf = query.serialize().unwrap();
    let pkt = Message::parse(&buf).unwrap();
    let _ = pkt;
}

#[test]
fn serialize_response() {
    let mut response = Message::new_response(0xfeed);
    response.add_answer(
        ResourceRecord::new_str::<dnis::rr::A>("www.google.com", Class::IN, "8.8.8.8").unwrap(),
    );
    let buf = response.serialize().unwrap();
    let pkt = Message::parse(&buf).unwrap();
    let newresp = pkt;
    let _ = newresp;
}

#[test]
fn label_accepts_alphanumeric_and_hyphen() {
    assert!(Label::from_str("example").is_ok());
    assert!(Label::from_str("a-b-c").is_ok());
    assert!(Label::from_str("A9z").is_ok());
    assert_eq!(Label::from_str("example").unwrap().as_str(), "example");
}

#[test]
fn label_rejects_empty_and_bad_characters() {
    assert!(matches!(Label::from_str(""), Err(DnsError::BadLabel)));
    assert!(matches!(Label::from_str("a.b"), Err(DnsError::BadLabel)));
    assert!(matches!(Label::from_str("a b"), Err(DnsError::BadLabel)));
    assert!(matches!(Label::from_str("a_b"), Err(DnsError::BadLabel)));
    assert!(matches!(Label::from_str("ü"), Err(DnsError::BadLabel)));
}

#[test]
fn name_display_round_trip() {
    let n = name("www.example.com");
    assert_eq!(n.to_string(), "www.example.com");
    assert!(matches!(Name::from_str(""), Err(DnsError::BadLabel)));
    assert!(matches!(Name::from_str(".a"), Err(DnsError::BadLabel)));
    assert!(matches!(Name::from_str("a."), Err(DnsError::BadLabel)));
    assert!(matches!(Name::from_str("a..b"), Err(DnsError::BadLabel)));
}

#[test]
fn name_push_pop_iter() {
    let mut n = name("example.com");
    n.push(Label::from_str("www").unwrap());
    assert_eq!(n.to_string(), "www.example.com");
    let labels = n.iter();
    assert_eq!(labels.len(), 3);
    assert_eq!(labels[0].as_str(), "www");
    assert_eq!(labels[2].as_str(), "com");
    n.pop();
    assert_eq!(n.to_string(), "example.com");
}

#[test]
fn question_to_string() {
    let q = Question::new_str("www.google.com", Class::IN, Type::A).unwrap();
    assert_eq!(q.to_string(), "IN A www.google.com");
}

#[test]
fn header_bit_packing_all_combinations() {
    let opcodes = [Opcode::StandardQuery, Opcode::InverseQuery, Opcode::ServerStatusRequest];
    let rcodes = [
        ResponseCode::NoError,
        ResponseCode::FormatError,
        ResponseCode::ServerFailure,
        ResponseCode::NameError,
        ResponseCode::NotImplemented,
        ResponseCode::Refused,
    ];
    for &opcode in opcodes.iter() {
        for &response_code in rcodes.iter() {
            for bits in 0..32u32 {
                let h = Header {
                    id: 0x4242,
                    query: bits & 1 != 0,
                    opcode,
                    authoritative: bits & 2 != 0,
                    truncated: bits & 4 != 0,
                    recursion_desired: bits & 8 != 0,
                    recursion_available: bits & 16 != 0,
                    authenticated_data: false,
                    checking_disabled: false,
                    response_code,
                };
                let m = Message::from_header(&h);
                let buf = m.serialize().unwrap();
                let parsed = Message::parse(&buf).unwrap();
                assert_eq!(*parsed.header(), h);
            }
        }
    }
}

fn roundtrip_answer(rr: ResourceRecord) -> ResourceRecord {
    let mut m = Message::new_response(0x0a0b);
    m.add_answer(rr);
    let buf = m.serialize().unwrap();
    let parsed = Message::parse(&buf).unwrap();
    assert_eq!(parsed.num_answers(), 1);
    parsed.get_answer(0).unwrap().clone()
}

#[test]
fn roundtrip_a_record() {
    let rr = ResourceRecord {
        name: name("host.example.com"),
        multicast_unique: false,
        class: Class::IN,
        ttl: 300,
        data: RRData::A(Ipv4Address::new(192, 0, 2, 7)),
    };
    let back = roundtrip_answer(rr);
    assert_eq!(back.name.to_string(), "host.example.com");
    assert_eq!(back.class, Class::IN);
    assert_eq!(back.ttl, 300);
    match back.data {
        RRData::A(a) => assert_eq!(a, Ipv4Address::new(192, 0, 2, 7)),
        _ => panic!("wrong payload kind"),
    }
}

#[test]
fn roundtrip_aaaa_record() {
    let addr = Ipv6Address::new(0x2001, 0xdb8, 0, 0, 0, 0, 0, 1);
    let rr = ResourceRecord {
        name: name("six.example.com"),
        multicast_unique: false,
        class: Class::IN,
        ttl: 60,
        data: RRData::AAAA(addr),
    };
    match roundtrip_answer(rr).data {
        RRData::AAAA(a) => assert_eq!(a, addr),
        _ => panic!("wrong payload kind"),
    }
}

#[test]
fn roundtrip_cname_ns_ptr_records() {
    for kind in 0..3 {
        let target = name("target.example.com");
        let data = match kind {
            0 => RRData::CNAME(target),
            1 => RRData::NS(target),
            _ => RRData::PTR(target),
        };
        let rr = ResourceRecord {
            name: name("alias.example.com"),
            multicast_unique: false,
            class: Class::IN,
            ttl: 120,
            data,
        };
        let back = roundtrip_answer(rr);
        let n = match (kind, back.data) {
            (0, RRData::CNAME(n)) => n,
            (1, RRData::NS(n)) => n,
            (2, RRData::PTR(n)) => n,
            _ => panic!("wrong payload kind"),
        };
        assert_eq!(n.to_string(), "target.example.com");
    }
}

#[test]
fn roundtrip_srv_record() {
    let rr = ResourceRecord {
        name: name("sip.example.com"),
        multicast_unique: false,
        class: Class::IN,
        ttl: 3600,
        data: RRData::SRV(SrvRecord {
            priority: 10,
            weight: 20,
            port: 5060,
            target: name("sipserver.example.com"),
        }),
    };
    match roundtrip_answer(rr).data {
        RRData::SRV(s) => {
            assert_eq!(s.priority, 10);
            assert_eq!(s.weight, 20);
            assert_eq!(s.port, 5060);
            assert_eq!(s.target.to_string(), "sipserver.example.com");
        },
        _ => panic!("wrong payload kind"),
    }
}

#[test]
fn roundtrip_soa_record() {
    let rr = ResourceRecord {
        name: name("example.com"),
        multicast_unique: false,
        class: Class::IN,
        ttl: 86400,
        data: RRData::SOA(SoaRecord {
            primary_ns: name("ns1.example.com"),
            mailbox: name("hostmaster.example.com"),
            serial: 2024010101,
            refresh: 7200,
            retry: 3600,
            expire: 1209600,
            min_ttl: 300,
        }),
    };
    match roundtrip_answer(rr).data {
        RRData::SOA(s) => {
            assert_eq!(s.primary_ns.to_string(), "ns1.example.com");
            assert_eq!(s.mailbox.to_string(), "hostmaster.example.com");
            assert_eq!(s.serial, 2024010101);
            assert_eq!(s.refresh, 7200);
            assert_eq!(s.retry, 3600);
            assert_eq!(s.expire, 1209600);
            assert_eq!(s.min_ttl, 300);
        },
        _ => panic!("wrong payload kind"),
    }
}

#[test]
fn roundtrip_mx_record() {
    let rr = ResourceRecord {
        name: name("example.com"),
        multicast_unique: false,
        class: Class::IN,
        ttl: 600,
        data: RRData::MX(MxRecord { preference: 5, exchange: name("mail.example.com") }),
    };
    match roundtrip_answer(rr).data {
        RRData::MX(m) => {
            assert_eq!(m.preference, 5);
            assert_eq!(m.exchange.to_string(), "mail.example.com");
        },
        _ => panic!("wrong payload kind"),
    }
}

#[test]
fn roundtrip_txt_record() {
    let rr = ResourceRecord {
        name: name("example.com"),
        multicast_unique: true,
        class: Class::CH,
        ttl: 0,
        data: RRData::TXT(vec![104, 101, 108, 108, 111]),
    };
    let back = roundtrip_answer(rr);
    assert!(back.multicast_unique);
    assert_eq!(back.class, Class::CH);
    match back.data {
        RRData::TXT(v) => assert_eq!(v, vec![104, 101, 108, 108, 111]),
        _ => panic!("wrong payload kind"),
    }
}

#[test]
fn unknown_payload_reports_txt_type_number() {
    let rr = ResourceRecord {
        name: name("example.com"),
        multicast_unique: false,
        class: Class::IN,
        ttl: 60,
        data: RRData::Unknown(vec![1, 2, 3]),
    };
    assert_eq!(rr.get_type(), None);
    // on the wire the fallback payload carries TXT's number, so it
    // parses back as a TXT payload
    match roundtrip_answer(rr).data {
        RRData::TXT(v) => assert_eq!(v, vec![1, 2, 3]),
        _ => panic!("wrong payload kind"),
    }
}

#[test]
fn roundtrip_question_and_opt() {
    let mut m = Message::new_query(7);
    let mut q = Question::new(name("www.example.com"), Class::Any, Type::MX);
    q.prefer_unicast = true;
    m.add_question(q);
    m.set_opt(OptRecord {
        udp: 4096,
        extrcode: 0,
        version: 0,
        flags: 0x8000,
        data: RRData::Unknown(vec![0, 10, 0, 2, 0, 0]),
    });
    let buf = m.serialize().unwrap();
    let parsed = Message::parse(&buf).unwrap();
    assert_eq!(parsed.num_questions(), 1);
    let pq = parsed.get_question(0).unwrap();
    assert_eq!(pq.name.to_string(), "www.example.com");
    assert!(pq.prefer_unicast);
    assert_eq!(pq.qtype, Type::MX);
    assert_eq!(pq.qclass, Class::Any);
    let opt = parsed.get_opt().unwrap();
    assert_eq!(opt.udp, 4096);
    assert_eq!(opt.flags, 0x8000);
    match &opt.data {
        RRData::Unknown(v) => assert_eq!(*v, vec![0, 10, 0, 2, 0, 0]),
        _ => panic!("wrong options payload"),
    }
}

#[test]
fn count_mismatch_fails_to_parse() {
    let mut m = Message::from_header(&query_header(1));
    m.add_question(Question::new_str("www.example.com", Class::IN, Type::A).unwrap());
    let mut buf = m.serialize().unwrap();
    assert!(Message::parse(&buf).is_ok());
    // claim two questions while one is present
    buf[5] = 2;
    assert!(matches!(Message::parse(&buf), Err(DnsError::Parse)));
    // claim none while one is present
    buf[5] = 0;
    assert!(matches!(Message::parse(&buf), Err(DnsError::Parse)));
}

#[test]
fn truncated_and_trailing_bytes_fail_to_parse() {
    assert!(matches!(Message::parse(&[0u8]), Err(DnsError::Parse)));
    let m = Message::new_query(9);
    let mut buf = m.serialize().unwrap();
    buf.push(0);
    assert!(matches!(Message::parse(&buf), Err(DnsError::Parse)));
    let short = &buf[..8];
    assert!(matches!(Message::parse(short), Err(DnsError::Parse)));
}

#[test]
fn overlong_label_fails_to_serialize() {
    let long: String = std::iter::repeat('a').take(64).collect();
    let mut n = name("example.com");
    n.push(Label::from_str(long.as_str()).unwrap());
    let mut m = Message::new_query(3);
    m.add_question(Question::new(n, Class::IN, Type::A));
    assert!(matches!(m.serialize(), Err(DnsError::TooLong)));
}

#[test]
fn compression_pointer_is_rejected() {
    // a length byte with the two top bits set is a compression
    // back-reference, which this codec does not support
    let bytes: Vec<u8> = vec![
        0, 1, 1, 0, 0, 1, 0, 0, 0, 0, 0, 0, // header: one question
        0xc0, 0x0c, 0, 1, 0, 1, // question with a pointer label
    ];
    assert!(matches!(Message::parse(&bytes), Err(DnsError::Parse)));
}

#[test]
fn record_builders() {
    let rr = ResourceRecord::new::<dnis::rr::A>(
        name("a.example.com"),
        Class::IN,
        Ipv4Address::new(198, 51, 100, 1),
    );
    assert_eq!(rr.ttl, 60);
    assert_eq!(rr.get_type(), Some(Type::A));
    assert_eq!(rr.get::<dnis::rr::A>(), Some(&Ipv4Address::new(198, 51, 100, 1)));
    assert!(rr.get::<dnis::rr::CNAME>().is_none());

    let rr2 = ResourceRecord::new_str_ttl::<dnis::rr::CNAME>(
        "alias.example.com",
        900,
        Class::IN,
        "real.example.com",
    )
    .unwrap();
    assert_eq!(rr2.ttl, 900);
    assert_eq!(rr2.get::<dnis::rr::CNAME>().unwrap().to_string(), "real.example.com");

    let bad_name = ResourceRecord::new_str::<dnis::rr::A>("..", Class::IN, "8.8.8.8");
    assert!(matches!(bad_name, Err(dnis::rr::RRError::DNS(DnsError::BadLabel))));
    let bad_data = ResourceRecord::new_str::<dnis::rr::A>("ok.example.com", Class::IN, "8.8.8.256");
    assert!(matches!(bad_data, Err(dnis::rr::RRError::DataConv(DnsError::Parse))));
    let bad_data2 = ResourceRecord::new_str::<dnis::rr::A>("ok.example.com", Class::IN, "8.8.8");
    assert!(matches!(bad_data2, Err(dnis::rr::RRError::DataConv(DnsError::Parse))));
    let leading_zeroes = ResourceRecord::new_str::<dnis::rr::A>("ok.example.com", Class::IN, "010.0.0.1");
    assert!(leading_zeroes.is_ok());
}

#[test]
fn ipv4_text_forms() {
    assert_eq!(parse_ipv4_text("0.0.0.0").unwrap(), Ipv4Address::new(0, 0, 0, 0));
    assert_eq!(
        parse_ipv4_text("255.255.255.255").unwrap(),
        Ipv4Address::new(255, 255, 255, 255)
    );
    assert_eq!(parse_ipv4_text("8.8.8.8").unwrap(), Ipv4Address::new(8, 8, 8, 8));
    assert!(parse_ipv4_text("256.1.1.1").is_err());
    assert!(parse_ipv4_text("1.2.3").is_err());
    assert!(parse_ipv4_text("1.2.3.4.5").is_err());
    assert!(parse_ipv4_text("1..2.3").is_err());
    assert!(parse_ipv4_text("").is_err());
    assert!(parse_ipv4_text("a.b.c.d").is_err());
    assert!(parse_ipv4_text("1234.1.1.1").is_err());
    assert_eq!(dnis::rr::A::parse_data("192.0.2.1").unwrap(), Ipv4Address::new(192, 0, 2, 1));
}

#[test]
fn parse_rebuilds_label_text() {
    // the name travels as raw bytes and is rebuilt into text on parse
    let mut m = Message::new_query(11);
    m.add_question(Question::new_str("MiXeD-9.example.com", Class::IN, Type::A).unwrap());
    let buf = m.serialize().unwrap();
    let parsed = Message::parse(&buf).unwrap();
    assert_eq!(parsed.get_question(0).unwrap().name.to_string(), "MiXeD-9.example.com");
}
