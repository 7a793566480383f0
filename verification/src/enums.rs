//! The QTYPE, QCLASS, opcode and response-code value spaces of a DNS message,
//! together with their wire code numbers.

use vstd::prelude::*;

verus! {

/// The QTYPE value space.
#[derive(Debug, PartialEq, Eq, Structural, Clone, Copy)]
pub enum Type {
    /// a host address
    A,
    /// an authoritative name server
    NS,
    /// a mail forwarder
    MF,
    /// the canonical name for an alias
    CNAME,
    /// marks the start of a zone of authority
    SOA,
    /// a mailbox domain name
    MB,
    /// a mail group member
    MG,
    /// a mail rename domain name
    MR,
    /// a null RR
    NULL,
    /// a well known service description
    WKS,
    /// a domain name pointer
    PTR,
    /// host information
    HINFO,
    /// mailbox or mail list information
    MINFO,
    /// mail exchange
    MX,
    /// text strings
    TXT,
    /// IPv6 host address
    AAAA,
    /// service record
    SRV,
    /// EDNS0 options
    OPT,
    /// a request for a transfer of an entire zone
    AXFR,
    /// a request for mailbox-related records
    MAILB,
    /// a request for mail agent RRs
    MAILA,
    /// a request for all records
    All,
}

/// The QCLASS value space.
#[derive(Debug, PartialEq, Eq, Structural, Clone, Copy)]
pub enum Class {
    /// the Internet
    IN,
    /// the CSNET class
    CS,
    /// the CHAOS class
    CH,
    /// Hesiod
    HS,
    /// any class
    Any,
}

/// The header opcode: what kind of query the message carries.
#[derive(Debug, PartialEq, Eq, Structural, Clone, Copy)]
pub enum Opcode {
    StandardQuery,
    InverseQuery,
    ServerStatusRequest,
    /// any other 4-bit opcode value, kept as parsed
    Reserved(u8),
}

/// The header response code.
#[derive(Debug, PartialEq, Eq, Structural, Clone, Copy)]
pub enum ResponseCode {
    NoError,
    FormatError,
    ServerFailure,
    NameError,
    NotImplemented,
    Refused,
    /// any other 4-bit response-code value, kept as parsed
    Reserved(u8),
}

/// The wire code number of a QTYPE.
pub open spec fn spec_type_code(t: Type) -> u16 {
    match t {
        Type::A => 1,
        Type::NS => 2,
        Type::MF => 4,
        Type::CNAME => 5,
        Type::SOA => 6,
        Type::MB => 7,
        Type::MG => 8,
        Type::MR => 9,
        Type::NULL => 10,
        Type::WKS => 11,
        Type::PTR => 12,
        Type::HINFO => 13,
        Type::MINFO => 14,
        Type::MX => 15,
        Type::TXT => 16,
        Type::AAAA => 28,
        Type::SRV => 33,
        Type::OPT => 41,
        Type::AXFR => 252,
        Type::MAILB => 253,
        Type::MAILA => 254,
        Type::All => 255,
    }
}

/// The QTYPE a wire code number denotes in a question; OPT never
/// appears in a question, so code 41 is not accepted here.
pub open spec fn spec_qtype_from_code(c: u16) -> Option<Type> {
    if c == 1 { Some(Type::A) }
    else if c == 2 { Some(Type::NS) }
    else if c == 4 { Some(Type::MF) }
    else if c == 5 { Some(Type::CNAME) }
    else if c == 6 { Some(Type::SOA) }
    else if c == 7 { Some(Type::MB) }
    else if c == 8 { Some(Type::MG) }
    else if c == 9 { Some(Type::MR) }
    else if c == 10 { Some(Type::NULL) }
    else if c == 11 { Some(Type::WKS) }
    else if c == 12 { Some(Type::PTR) }
    else if c == 13 { Some(Type::HINFO) }
    else if c == 14 { Some(Type::MINFO) }
    else if c == 15 { Some(Type::MX) }
    else if c == 16 { Some(Type::TXT) }
    else if c == 28 { Some(Type::AAAA) }
    else if c == 33 { Some(Type::SRV) }
    else if c == 252 { Some(Type::AXFR) }
    else if c == 253 { Some(Type::MAILB) }
    else if c == 254 { Some(Type::MAILA) }
    else if c == 255 { Some(Type::All) }
    else { None }
}

impl Type {
    /// The wire code number of this QTYPE.
    pub fn code(self) -> (r: u16)
        ensures
            r == spec_type_code(self),
    {
        match self {
            Type::A => 1,
            Type::NS => 2,
            Type::MF => 4,
            Type::CNAME => 5,
            Type::SOA => 6,
            Type::MB => 7,
            Type::MG => 8,
            Type::MR => 9,
            Type::NULL => 10,
            Type::WKS => 11,
            Type::PTR => 12,
            Type::HINFO => 13,
            Type::MINFO => 14,
            Type::MX => 15,
            Type::TXT => 16,
            Type::AAAA => 28,
            Type::SRV => 33,
            Type::OPT => 41,
            Type::AXFR => 252,
            Type::MAILB => 253,
            Type::MAILA => 254,
            Type::All => 255,
        }
    }

    /// The QTYPE denoted by a wire code number in a question.
    pub fn question_type_from_code(c: u16) -> (r: Option<Type>)
        ensures
            r == spec_qtype_from_code(c),
    {
        if c == 1 { Some(Type::A) }
        else if c == 2 { Some(Type::NS) }
        else if c == 4 { Some(Type::MF) }
        else if c == 5 { Some(Type::CNAME) }
        else if c == 6 { Some(Type::SOA) }
        else if c == 7 { Some(Type::MB) }
        else if c == 8 { Some(Type::MG) }
        else if c == 9 { Some(Type::MR) }
        else if c == 10 { Some(Type::NULL) }
        else if c == 11 { Some(Type::WKS) }
        else if c == 12 { Some(Type::PTR) }
        else if c == 13 { Some(Type::HINFO) }
        else if c == 14 { Some(Type::MINFO) }
        else if c == 15 { Some(Type::MX) }
        else if c == 16 { Some(Type::TXT) }
        else if c == 28 { Some(Type::AAAA) }
        else if c == 33 { Some(Type::SRV) }
        else if c == 252 { Some(Type::AXFR) }
        else if c == 253 { Some(Type::MAILB) }
        else if c == 254 { Some(Type::MAILA) }
        else if c == 255 { Some(Type::All) }
        else { None }
    }
}

/// The wire code number of a QCLASS.
pub open spec fn spec_class_code(c: Class) -> u16 {
    match c {
        Class::IN => 1,
        Class::CS => 2,
        Class::CH => 3,
        Class::HS => 4,
        Class::Any => 255,
    }
}

/// The QCLASS a wire code number denotes in a question.
pub open spec fn spec_qclass_from_code(c: u16) -> Option<Class> {
    if c == 1 { Some(Class::IN) }
    else if c == 2 { Some(Class::CS) }
    else if c == 3 { Some(Class::CH) }
    else if c == 4 { Some(Class::HS) }
    else if c == 255 { Some(Class::Any) }
    else { None }
}

/// The class a wire code number denotes in a resource record; `Any`
/// is a question-only class and is not accepted here.
pub open spec fn spec_rrclass_from_code(c: u16) -> Option<Class> {
    if c == 1 { Some(Class::IN) }
    else if c == 2 { Some(Class::CS) }
    else if c == 3 { Some(Class::CH) }
    else if c == 4 { Some(Class::HS) }
    else { None }
}

impl Class {
    /// The wire code number of this QCLASS.
    pub fn code(self) -> (r: u16)
        ensures
            r == spec_class_code(self),
    {
        match self {
            Class::IN => 1,
            Class::CS => 2,
            Class::CH => 3,
            Class::HS => 4,
            Class::Any => 255,
        }
    }

    /// The QCLASS denoted by a wire code number in a question.
    pub fn question_class_from_code(c: u16) -> (r: Option<Class>)
        ensures
            r == spec_qclass_from_code(c),
    {
        if c == 1 { Some(Class::IN) }
        else if c == 2 { Some(Class::CS) }
        else if c == 3 { Some(Class::CH) }
        else if c == 4 { Some(Class::HS) }
        else if c == 255 { Some(Class::Any) }
        else { None }
    }

    /// The class denoted by a wire code number in a resource record.
    pub fn record_class_from_code(c: u16) -> (r: Option<Class>)
        ensures
            r == spec_rrclass_from_code(c),
    {
        if c == 1 { Some(Class::IN) }
        else if c == 2 { Some(Class::CS) }
        else if c == 3 { Some(Class::CH) }
        else if c == 4 { Some(Class::HS) }
        else { None }
    }
}

/// The 4-bit value an opcode is written as; opcodes outside the three
/// modelled kinds are all written as 3.
pub open spec fn spec_opcode_code(o: Opcode) -> u16 {
    match o {
        Opcode::StandardQuery => 0,
        Opcode::InverseQuery => 1,
        Opcode::ServerStatusRequest => 2,
        Opcode::Reserved(_) => 3,
    }
}

/// The opcode a 4-bit wire value denotes.
pub open spec fn spec_opcode_from_code(c: u8) -> Opcode {
    if c == 0 { Opcode::StandardQuery }
    else if c == 1 { Opcode::InverseQuery }
    else if c == 2 { Opcode::ServerStatusRequest }
    else { Opcode::Reserved(c) }
}

impl Opcode {
    /// The 4-bit value this opcode is written as.
    pub fn code(self) -> (r: u16)
        ensures
            r == spec_opcode_code(self),
    {
        match self {
            Opcode::StandardQuery => 0,
            Opcode::InverseQuery => 1,
            Opcode::ServerStatusRequest => 2,
            Opcode::Reserved(_) => 3,
        }
    }

    /// The opcode a 4-bit wire value denotes.
    pub fn from_code(c: u8) -> (r: Opcode)
        ensures
            r == spec_opcode_from_code(c),
    {
        if c == 0 { Opcode::StandardQuery }
        else if c == 1 { Opcode::InverseQuery }
        else if c == 2 { Opcode::ServerStatusRequest }
        else { Opcode::Reserved(c) }
    }
}

/// The 4-bit value a response code is written as; codes outside the six
/// modelled kinds are all written as 6.
pub open spec fn spec_rcode_code(rc: ResponseCode) -> u16 {
    match rc {
        ResponseCode::NoError => 0,
        ResponseCode::FormatError => 1,
        ResponseCode::ServerFailure => 2,
        ResponseCode::NameError => 3,
        ResponseCode::NotImplemented => 4,
        ResponseCode::Refused => 5,
        ResponseCode::Reserved(_) => 6,
    }
}

/// The response code a 4-bit wire value denotes.
pub open spec fn spec_rcode_from_code(c: u8) -> ResponseCode {
    if c == 0 { ResponseCode::NoError }
    else if c == 1 { ResponseCode::FormatError }
    else if c == 2 { ResponseCode::ServerFailure }
    else if c == 3 { ResponseCode::NameError }
    else if c == 4 { ResponseCode::NotImplemented }
    else if c == 5 { ResponseCode::Refused }
    else { ResponseCode::Reserved(c) }
}

impl ResponseCode {
    /// The 4-bit value this response code is written as.
    pub fn code(self) -> (r: u16)
        ensures
            r == spec_rcode_code(self),
    {
        match self {
            ResponseCode::NoError => 0,
            ResponseCode::FormatError => 1,
            ResponseCode::ServerFailure => 2,
            ResponseCode::NameError => 3,
            ResponseCode::NotImplemented => 4,
            ResponseCode::Refused => 5,
            ResponseCode::Reserved(_) => 6,
        }
    }

    /// The response code a 4-bit wire value denotes.
    pub fn from_code(c: u8) -> (r: ResponseCode)
        ensures
            r == spec_rcode_from_code(c),
    {
        if c == 0 { ResponseCode::NoError }
        else if c == 1 { ResponseCode::FormatError }
        else if c == 2 { ResponseCode::ServerFailure }
        else if c == 3 { ResponseCode::NameError }
        else if c == 4 { ResponseCode::NotImplemented }
        else if c == 5 { ResponseCode::Refused }
        else { ResponseCode::Reserved(c) }
    }
}

} // verus!
