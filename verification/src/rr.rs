//! Typed resource-record payloads and the records that carry them.

use vstd::prelude::*;

use crate::enums::{Class, Type};
use crate::errors::DnsError;
use crate::name::{name_text, valid_name_chars, Name};
use vstd::string::StrSliceExecFns;
use crate::wire::{enc_opt, enc_rr, enc_rrdata, enc_u16, push_u16, push_u32, push_bytes,
    record_class_word, rrdata_typenum, wf_rr_wire, wf_rrdata_wire};
use vstd::pervasive::VecAdditionalExecFns;

verus! {

/// An IPv4 address as its four octets.
#[derive(Debug, PartialEq, Eq, Structural, Clone, Copy)]
pub struct Ipv4Address {
    pub o0: u8,
    pub o1: u8,
    pub o2: u8,
    pub o3: u8,
}

impl Ipv4Address {
    pub fn new(o0: u8, o1: u8, o2: u8, o3: u8) -> (r: Self)
        ensures
            r == (Ipv4Address { o0, o1, o2, o3 }),
    {
        Ipv4Address { o0, o1, o2, o3 }
    }
}

/// An IPv6 address as its eight 16-bit segments.
#[derive(Debug, PartialEq, Eq, Structural, Clone, Copy)]
pub struct Ipv6Address {
    pub s0: u16,
    pub s1: u16,
    pub s2: u16,
    pub s3: u16,
    pub s4: u16,
    pub s5: u16,
    pub s6: u16,
    pub s7: u16,
}

impl Ipv6Address {
    pub fn new(s0: u16, s1: u16, s2: u16, s3: u16, s4: u16, s5: u16, s6: u16, s7: u16) -> (r: Self)
        ensures
            r == (Ipv6Address { s0, s1, s2, s3, s4, s5, s6, s7 }),
    {
        Ipv6Address { s0, s1, s2, s3, s4, s5, s6, s7 }
    }
}

/// A start-of-authority payload.
#[derive(Clone)]
pub struct SoaRecord {
    pub primary_ns: Name,
    pub mailbox: Name,
    pub serial: u32,
    pub refresh: u32,
    pub retry: u32,
    pub expire: u32,
    pub min_ttl: u32,
}

/// A service-location payload.
#[derive(Clone)]
pub struct SrvRecord {
    pub priority: u16,
    pub weight: u16,
    pub port: u16,
    pub target: Name,
}

/// A mail-exchange payload.
#[derive(Clone)]
pub struct MxRecord {
    pub preference: u16,
    pub exchange: Name,
}

/// The typed payload of a resource record. `Unknown` is the fallback for
/// any record type not modelled explicitly; on the wire its type number is
/// reported as TXT's, a known approximation kept as given.
#[derive(Clone)]
pub enum RRData {
    CNAME(Name),
    NS(Name),
    A(Ipv4Address),
    AAAA(Ipv6Address),
    SRV(SrvRecord),
    SOA(SoaRecord),
    PTR(Name),
    MX(MxRecord),
    TXT(Vec<u8>),
    Unknown(Vec<u8>),
}

/// The mathematical value of a start-of-authority payload.
pub struct SoaRecordV {
    pub primary_ns: Seq<Seq<u8>>,
    pub mailbox: Seq<Seq<u8>>,
    pub serial: u32,
    pub refresh: u32,
    pub retry: u32,
    pub expire: u32,
    pub min_ttl: u32,
}

/// The mathematical value of a service-location payload.
pub struct SrvRecordV {
    pub priority: u16,
    pub weight: u16,
    pub port: u16,
    pub target: Seq<Seq<u8>>,
}

/// The mathematical value of a mail-exchange payload.
pub struct MxRecordV {
    pub preference: u16,
    pub exchange: Seq<Seq<u8>>,
}

/// The mathematical value of a typed payload.
pub enum RRDataV {
    CNAME(Seq<Seq<u8>>),
    NS(Seq<Seq<u8>>),
    A(Ipv4Address),
    AAAA(Ipv6Address),
    SRV(SrvRecordV),
    SOA(SoaRecordV),
    PTR(Seq<Seq<u8>>),
    MX(MxRecordV),
    TXT(Seq<u8>),
    Unknown(Seq<u8>),
}

impl View for SoaRecord {
    type V = SoaRecordV;

    open spec fn view(&self) -> SoaRecordV {
        SoaRecordV {
            primary_ns: self.primary_ns@,
            mailbox: self.mailbox@,
            serial: self.serial,
            refresh: self.refresh,
            retry: self.retry,
            expire: self.expire,
            min_ttl: self.min_ttl,
        }
    }
}

impl View for SrvRecord {
    type V = SrvRecordV;

    open spec fn view(&self) -> SrvRecordV {
        SrvRecordV {
            priority: self.priority,
            weight: self.weight,
            port: self.port,
            target: self.target@,
        }
    }
}

impl View for MxRecord {
    type V = MxRecordV;

    open spec fn view(&self) -> MxRecordV {
        MxRecordV { preference: self.preference, exchange: self.exchange@ }
    }
}

impl View for RRData {
    type V = RRDataV;

    open spec fn view(&self) -> RRDataV {
        match self {
            RRData::CNAME(n) => RRDataV::CNAME(n@),
            RRData::NS(n) => RRDataV::NS(n@),
            RRData::A(a) => RRDataV::A(*a),
            RRData::AAAA(a) => RRDataV::AAAA(*a),
            RRData::SRV(s) => RRDataV::SRV(s@),
            RRData::SOA(s) => RRDataV::SOA(s@),
            RRData::PTR(n) => RRDataV::PTR(n@),
            RRData::MX(m) => RRDataV::MX(m@),
            RRData::TXT(v) => RRDataV::TXT(v@),
            RRData::Unknown(v) => RRDataV::Unknown(v@),
        }
    }
}

impl RRData {
    /// Internal invariant: every name inside is well-formed.
    pub open spec fn wf(&self) -> bool {
        match self {
            RRData::CNAME(n) => n.wf(),
            RRData::NS(n) => n.wf(),
            RRData::A(_) => true,
            RRData::AAAA(_) => true,
            RRData::SRV(s) => s.target.wf(),
            RRData::SOA(s) => s.primary_ns.wf() && s.mailbox.wf(),
            RRData::PTR(n) => n.wf(),
            RRData::MX(m) => m.exchange.wf(),
            RRData::TXT(_) => true,
            RRData::Unknown(_) => true,
        }
    }
}

impl RRData {
    /// The type number this payload is written with.
    pub fn get_typenum(&self) -> (r: u16)
        ensures
            r == rrdata_typenum(self@),
    {
        match self {
            RRData::CNAME(_) => 5,
            RRData::NS(_) => 2,
            RRData::A(_) => 1,
            RRData::AAAA(_) => 28,
            RRData::SRV(_) => 33,
            RRData::SOA(_) => 6,
            RRData::PTR(_) => 12,
            RRData::MX(_) => 15,
            RRData::TXT(_) => 16,
            RRData::Unknown(_) => 16,
        }
    }

    /// Appends the payload's wire form to `out`: a 16-bit length field
    /// written as a zero placeholder, the payload bytes, then the
    /// placeholder patched in place with the exact byte count just
    /// written. Fails exactly when a name inside is over-long or the
    /// payload exceeds 65,535 bytes; nothing is written then.
    #[verifier::rlimit(100)]
    #[verifier::spinoff_prover]
    pub fn serialize(&self, out: &mut Vec<u8>) -> (r: Result<(), DnsError>)
        requires
            self.wf(),
        ensures
            r is Ok <==> wf_rrdata_wire(self@),
            r is Ok ==> final(out)@ == old(out)@ + enc_u16(enc_rrdata(self@).len() as u16)
                + enc_rrdata(self@),
            r is Err ==> final(out)@ == old(out)@ && (r matches Err(e) && e == DnsError::TooLong),
    {
        let start = out.len();
        out.push(0);
        out.push(0);
        let pos = out.len();
        let ok: bool = match self {
            RRData::CNAME(n) => n.serialize(out).is_ok(),
            RRData::NS(n) => n.serialize(out).is_ok(),
            RRData::A(a) => {
                out.push(a.o0);
                out.push(a.o1);
                out.push(a.o2);
                out.push(a.o3);
                true
            },
            RRData::AAAA(a) => {
                push_u16(out, a.s0);
                push_u16(out, a.s1);
                push_u16(out, a.s2);
                push_u16(out, a.s3);
                push_u16(out, a.s4);
                push_u16(out, a.s5);
                push_u16(out, a.s6);
                push_u16(out, a.s7);
                true
            },
            RRData::SRV(s) => {
                push_u16(out, s.priority);
                push_u16(out, s.weight);
                push_u16(out, s.port);
                s.target.serialize(out).is_ok()
            },
            RRData::SOA(s) => {
                if s.primary_ns.serialize(out).is_ok() {
                    if s.mailbox.serialize(out).is_ok() {
                        push_u32(out, s.serial);
                        push_u32(out, s.refresh);
                        push_u32(out, s.retry);
                        push_u32(out, s.expire);
                        push_u32(out, s.min_ttl);
                        true
                    } else {
                        false
                    }
                } else {
                    false
                }
            },
            RRData::PTR(n) => n.serialize(out).is_ok(),
            RRData::MX(m) => {
                push_u16(out, m.preference);
                m.exchange.serialize(out).is_ok()
            },
            RRData::TXT(v) => {
                push_bytes(out, v.as_slice());
                true
            },
            RRData::Unknown(v) => {
                push_bytes(out, v.as_slice());
                true
            },
        };
        if !ok {
            out.truncate(start);
            proof {
                assert(out@ =~= old(out)@);
            }
            return Err(DnsError::TooLong);
        }
        assert(out@ == old(out)@ + seq![0u8, 0u8] + enc_rrdata(self@));
        let endpos = out.len();
        let plen = endpos - pos;
        if plen > 0xFFFF {
            out.truncate(start);
            proof {
                assert(out@ =~= old(out)@);
            }
            return Err(DnsError::TooLong);
        }
        let lenw = plen as u16;
        out.set(start, (lenw / 256) as u8);
        out.set(start + 1, (lenw % 256) as u8);
        proof {
            assert(out@ =~= old(out)@ + enc_u16(enc_rrdata(self@).len() as u16) + enc_rrdata(
                self@,
            ));
        }
        Ok(())
    }
}

/// A resource record: a name, a class, a time to live, and a typed payload.
/// The multicast-unique flag is the class field's high bit on the wire.
#[derive(Clone)]
pub struct ResourceRecord {
    pub name: Name,
    pub multicast_unique: bool,
    pub class: Class,
    pub ttl: u32,
    pub data: RRData,
}

/// The mathematical value of a resource record.
pub struct ResourceRecordV {
    pub name: Seq<Seq<u8>>,
    pub multicast_unique: bool,
    pub class: Class,
    pub ttl: u32,
    pub data: RRDataV,
}

impl View for ResourceRecord {
    type V = ResourceRecordV;

    open spec fn view(&self) -> ResourceRecordV {
        ResourceRecordV {
            name: self.name@,
            multicast_unique: self.multicast_unique,
            class: self.class,
            ttl: self.ttl,
            data: self.data@,
        }
    }
}

/// The EDNS0 pseudo-resource-record: advertised UDP payload size, extended
/// response-code byte, version byte, a flags word, and a payload used as an
/// options container. At most one per message; counted as one additional
/// record for header-count purposes.
#[derive(Clone)]
pub struct OptRecord {
    pub udp: u16,
    pub extrcode: u8,
    pub version: u8,
    pub flags: u16,
    pub data: RRData,
}

/// The mathematical value of an EDNS0 pseudo-record.
pub struct OptRecordV {
    pub udp: u16,
    pub extrcode: u8,
    pub version: u8,
    pub flags: u16,
    pub data: RRDataV,
}

impl View for OptRecord {
    type V = OptRecordV;

    open spec fn view(&self) -> OptRecordV {
        OptRecordV {
            udp: self.udp,
            extrcode: self.extrcode,
            version: self.version,
            flags: self.flags,
            data: self.data@,
        }
    }
}

impl OptRecord {
    /// Appends the pseudo-record's wire form to `out`: a root name, type
    /// number 41, the UDP size, the extended code, version and flags,
    /// then the length-prefixed payload. Fails exactly when the payload
    /// cannot stand on the wire; nothing is written then.
    pub fn serialize(&self, out: &mut Vec<u8>) -> (r: Result<(), DnsError>)
        requires
            self.data.wf(),
        ensures
            r is Ok <==> wf_rrdata_wire(self@.data),
            r is Ok ==> final(out)@ == old(out)@ + enc_opt(self@),
            r is Err ==> final(out)@ == old(out)@ && (r matches Err(e) && e == DnsError::TooLong),
    {
        let start = out.len();
        out.push(0);
        push_u16(out, 41);
        push_u16(out, self.udp);
        out.push(self.extrcode);
        out.push(self.version);
        push_u16(out, self.flags);
        match self.data.serialize(out) {
            Ok(()) => (),
            Err(e) => {
                out.truncate(start);
                proof {
                    assert(out@ =~= old(out)@);
                }
                return Err(e);
            },
        }
        proof {
            assert(out@ =~= old(out)@ + enc_opt(self@));
        }
        Ok(())
    }
}

impl ResourceRecord {
    /// Internal invariant: the owner name and every name in the payload
    /// are well-formed.
    pub open spec fn wf(&self) -> bool {
        self.name.wf() && self.data.wf()
    }

    /// Appends the record's wire form to `out`: name, type number, class
    /// word, TTL, then the length-prefixed payload. Fails exactly when a
    /// name is over-long or the payload exceeds 65,535 bytes; nothing is
    /// written then.
    pub fn serialize(&self, out: &mut Vec<u8>) -> (r: Result<(), DnsError>)
        requires
            self.wf(),
        ensures
            r is Ok <==> wf_rr_wire(self@),
            r is Ok ==> final(out)@ == old(out)@ + enc_rr(self@),
            r is Err ==> final(out)@ == old(out)@ && (r matches Err(e) && e == DnsError::TooLong),
    {
        let start = out.len();
        match self.name.serialize(out) {
            Ok(()) => (),
            Err(e) => {
                return Err(e);
            },
        }
        push_u16(out, self.data.get_typenum());
        let mut cw = self.class.code();
        if self.multicast_unique {
            cw = cw + 32768;
        }
        push_u16(out, cw);
        push_u32(out, self.ttl);
        match self.data.serialize(out) {
            Ok(()) => (),
            Err(e) => {
                out.truncate(start);
                proof {
                    assert(out@ =~= old(out)@);
                }
                return Err(e);
            },
        }
        proof {
            assert(cw == record_class_word(self@));
            assert(out@ =~= old(out)@ + enc_rr(self@));
        }
        Ok(())
    }

    /// The carried value, when the payload is of the marker's kind.
    pub fn get<T: RRDataMap>(&self) -> (res: Option<&T::D>)
        ensures
            match res {
                Some(d) => T::wraps(*d, self.data),
                None => forall|d: T::D| !T::wraps(d, self.data),
            },
    {
        T::map(&self.data)
    }

    /// Builds a record carrying the given value, with a default TTL of
    /// one minute.
    pub fn new<T: RRDataMap>(n: Name, c: Class, d: T::D) -> (r: Self)
        requires
            n.wf(),
            T::d_wf(d),
        ensures
            r.wf(),
            r.name@ == n@,
            r.multicast_unique == false,
            r.class == c,
            r.ttl == 60,
            T::wraps(d, r.data),
    {
        // much of the time the TTL is ignored, so a sane default serves
        Self::new_ttl::<T>(n, 60, c, d)
    }

    /// Builds a record carrying the given value and TTL.
    pub fn new_ttl<T: RRDataMap>(n: Name, ttl: u32, c: Class, d: T::D) -> (r: Self)
        requires
            n.wf(),
            T::d_wf(d),
        ensures
            r.wf(),
            r.name@ == n@,
            r.multicast_unique == false,
            r.class == c,
            r.ttl == ttl,
            T::wraps(d, r.data),
    {
        ResourceRecord { name: n, multicast_unique: false, class: c, ttl, data: T::unmap(d) }
    }

    /// Builds a record from the text forms of its name and value, with a
    /// default TTL of one minute. Fails with a name error when the name
    /// is invalid, and with a conversion error when the value text is.
    pub fn new_str<T: RRDataMap>(n: &str, c: Class, d: &str) -> (r: Result<
        Self,
        RRError<DnsError>,
    >)
        ensures
            r is Ok <==> valid_name_chars(n@) && T::str_ok(d@),
            r matches Ok(rr) ==> rr.wf() && name_text(rr.name@) == n@ && rr.multicast_unique
                == false && rr.class == c && rr.ttl == 60 && (exists|dd: T::D|
                T::str_matches(dd, d@) && #[trigger] T::wraps(dd, rr.data)),
            !valid_name_chars(n@) ==> (r matches Err(e) && e is DNS),
            valid_name_chars(n@) && !T::str_ok(d@) ==> (r matches Err(e) && e is DataConv),
    {
        Self::new_str_ttl::<T>(n, 60, c, d)
    }

    /// As `new_str`, with the TTL given.
    pub fn new_str_ttl<T: RRDataMap>(n: &str, ttl: u32, c: Class, d: &str) -> (r: Result<
        Self,
        RRError<DnsError>,
    >)
        ensures
            r is Ok <==> valid_name_chars(n@) && T::str_ok(d@),
            r matches Ok(rr) ==> rr.wf() && name_text(rr.name@) == n@ && rr.multicast_unique
                == false && rr.class == c && rr.ttl == ttl && (exists|dd: T::D|
                T::str_matches(dd, d@) && #[trigger] T::wraps(dd, rr.data)),
            !valid_name_chars(n@) ==> (r matches Err(e) && e is DNS),
            valid_name_chars(n@) && !T::str_ok(d@) ==> (r matches Err(e) && e is DataConv),
    {
        let name = match Name::from_str(n) {
            Ok(nm) => nm,
            Err(e) => {
                return Err(RRError::DNS(e));
            },
        };
        let data = match T::parse_data(d) {
            Ok(dd) => dd,
            Err(e) => {
                return Err(RRError::DataConv(e));
            },
        };
        Ok(Self::new_ttl::<T>(name, ttl, c, data))
    }

    /// The QTYPE the payload is reported as, or `None` for an
    /// unrecognised payload.
    pub fn get_type(&self) -> (r: Option<Type>)
        ensures
            r == match self.data@ {
                RRDataV::CNAME(_) => Some(Type::CNAME),
                RRDataV::NS(_) => Some(Type::NS),
                RRDataV::A(_) => Some(Type::A),
                RRDataV::AAAA(_) => Some(Type::AAAA),
                RRDataV::SRV(_) => Some(Type::SRV),
                RRDataV::SOA(_) => Some(Type::SOA),
                RRDataV::PTR(_) => Some(Type::PTR),
                RRDataV::MX(_) => Some(Type::MX),
                RRDataV::TXT(_) => Some(Type::TXT),
                RRDataV::Unknown(_) => None,
            },
    {
        match &self.data {
            RRData::CNAME(_) => Some(Type::CNAME),
            RRData::NS(_) => Some(Type::NS),
            RRData::A(_) => Some(Type::A),
            RRData::AAAA(_) => Some(Type::AAAA),
            RRData::SRV(_) => Some(Type::SRV),
            RRData::SOA(_) => Some(Type::SOA),
            RRData::PTR(_) => Some(Type::PTR),
            RRData::MX(_) => Some(Type::MX),
            RRData::TXT(_) => Some(Type::TXT),
            RRData::Unknown(_) => None,
        }
    }
}

/// A decimal digit.
pub open spec fn is_dec_digit(c: char) -> bool {
    '0' <= c <= '9'
}

/// Scans a run of decimal digits from `pos`, accumulating their value;
/// yields the value and the position after the run.
pub open spec fn scan_num(s: Seq<char>, pos: int, acc: int) -> (int, int)
    decreases s.len() - pos,
{
    if pos < 0 || pos >= s.len() || !is_dec_digit(s[pos]) {
        (acc, pos)
    } else {
        scan_num(s, pos + 1, acc * 10 + (s[pos] as int - 48))
    }
}

/// The decimal octet standing at `pos`: one to three digits whose value
/// fits a byte, and the position after them.
pub open spec fn octet_at(s: Seq<char>, pos: int) -> Option<(u8, int)> {
    if pos < 0 || pos >= s.len() || !is_dec_digit(s[pos]) {
        None
    } else {
        let (v, e) = scan_num(s, pos, 0);
        if e - pos <= 3 && v <= 255 {
            Some((v as u8, e))
        } else {
            None
        }
    }
}

/// The IPv4 address a dotted-quad string denotes: four decimal octets
/// joined by single dots and nothing else.
pub open spec fn dec_ipv4_text(s: Seq<char>) -> Option<Ipv4Address> {
    match octet_at(s, 0) {
        None => None,
        Some((v1, p1)) => if !(p1 < s.len() && s[p1] == '.') {
            None
        } else {
            match octet_at(s, p1 + 1) {
                None => None,
                Some((v2, p2)) => if !(p2 < s.len() && s[p2] == '.') {
                    None
                } else {
                    match octet_at(s, p2 + 1) {
                        None => None,
                        Some((v3, p3)) => if !(p3 < s.len() && s[p3] == '.') {
                            None
                        } else {
                            match octet_at(s, p3 + 1) {
                                None => None,
                                Some((v4, p4)) => if p4 == s.len() {
                                    Some(Ipv4Address { o0: v1, o1: v2, o2: v3, o3: v4 })
                                } else {
                                    None
                                },
                            }
                        },
                    }
                },
            }
        },
    }
}

/// A digit run never ends before it starts.
proof fn lemma_scan_num_end(s: Seq<char>, pos: int, acc: int)
    ensures
        scan_num(s, pos, acc).1 >= pos,
    decreases s.len() - pos,
{
    if !(pos < 0 || pos >= s.len() || !is_dec_digit(s[pos])) {
        lemma_scan_num_end(s, pos + 1, acc * 10 + (s[pos] as int - 48));
    }
}

/// Reads the decimal octet at `pos`: returns exactly what `octet_at`
/// yields, or fails when there is none.
fn scan_octet(s: &str, n: usize, pos: usize) -> (r: Result<(u8, usize), DnsError>)
    requires
        n == s@.len(),
        pos <= n,
    ensures
        r matches Ok(p) ==> octet_at(s@, pos as int) == Some((p.0, p.1 as int)) && pos < p.1 <= n,
        r is Err ==> octet_at(s@, pos as int) is None,
        r matches Err(e) ==> e == DnsError::Parse,
{
    if pos >= n {
        return Err(DnsError::Parse);
    }
    let c0 = s.get_char(pos);
    if !('0' <= c0 && c0 <= '9') {
        return Err(DnsError::Parse);
    }
    let d0 = (c0 as u32 - 48) as u16;
    let mut v: u16 = d0;
    let mut cur: usize = pos + 1;
    proof {
        assert(scan_num(s@, pos as int, 0) == scan_num(s@, pos + 1, d0 as int));
    }
    if cur < n {
        let c1 = s.get_char(cur);
        if '0' <= c1 && c1 <= '9' {
            proof {
                assert(scan_num(s@, cur as int, v as int) == scan_num(
                    s@,
                    cur + 1,
                    v * 10 + (c1 as int - 48),
                ));
            }
            v = v * 10 + (c1 as u32 - 48) as u16;
            cur = cur + 1;
            if cur < n {
                let c2 = s.get_char(cur);
                if '0' <= c2 && c2 <= '9' {
                    proof {
                        assert(scan_num(s@, cur as int, v as int) == scan_num(
                            s@,
                            cur + 1,
                            v * 10 + (c2 as int - 48),
                        ));
                    }
                    v = v * 10 + (c2 as u32 - 48) as u16;
                    cur = cur + 1;
                    if cur < n {
                        let c3 = s.get_char(cur);
                        if '0' <= c3 && c3 <= '9' {
                            // four digits: the run is too long for an octet
                            proof {
                                let a4 = v * 10 + (c3 as int - 48);
                                assert(scan_num(s@, cur as int, v as int) == scan_num(
                                    s@,
                                    cur + 1,
                                    a4,
                                ));
                                lemma_scan_num_end(s@, cur + 1, a4);
                                assert(scan_num(s@, pos as int, 0).1 >= pos + 4);
                            }
                            return Err(DnsError::Parse);
                        }
                    }
                }
            }
        }
    }
    proof {
        assert(scan_num(s@, cur as int, v as int) == (v as int, cur as int));
        assert(scan_num(s@, pos as int, 0) == (v as int, cur as int));
    }
    if v > 255 {
        return Err(DnsError::Parse);
    }
    Ok((v as u8, cur))
}

/// Parses a dotted-quad IPv4 address: accepted exactly when the string
/// is four decimal octets joined by single dots.
pub fn parse_ipv4_text(s: &str) -> (r: Result<Ipv4Address, DnsError>)
    ensures
        r is Ok <==> dec_ipv4_text(s@) is Some,
        r matches Ok(a) ==> dec_ipv4_text(s@) == Some(a),
        r matches Err(e) ==> e == DnsError::Parse,
{
    let n = s.unicode_len();
    let (v1, p1) = match scan_octet(s, n, 0) {
        Ok(x) => x,
        Err(e) => {
            return Err(e);
        },
    };
    if p1 >= n || s.get_char(p1) != '.' {
        return Err(DnsError::Parse);
    }
    let (v2, p2) = match scan_octet(s, n, p1 + 1) {
        Ok(x) => x,
        Err(e) => {
            return Err(e);
        },
    };
    if p2 >= n || s.get_char(p2) != '.' {
        return Err(DnsError::Parse);
    }
    let (v3, p3) = match scan_octet(s, n, p2 + 1) {
        Ok(x) => x,
        Err(e) => {
            return Err(e);
        },
    };
    if p3 >= n || s.get_char(p3) != '.' {
        return Err(DnsError::Parse);
    }
    let (v4, p4) = match scan_octet(s, n, p3 + 1) {
        Ok(x) => x,
        Err(e) => {
            return Err(e);
        },
    };
    if p4 != n {
        return Err(DnsError::Parse);
    }
    Ok(Ipv4Address { o0: v1, o1: v2, o2: v3, o3: v4 })
}

/// The error of a record builder that parses its inputs: either the name
/// was invalid, or the payload text was.
#[derive(Debug, PartialEq, Eq, Structural, Clone, Copy)]
pub enum RRError<T> {
    DNS(DnsError),
    DataConv(T),
}

/// A marker for one payload kind: how its carried value maps in and out
/// of `RRData`, and how its text form parses.
pub trait RRDataMap {
    /// The value the payload carries.
    type D;

    /// Whether `r` is this payload kind carrying exactly `d`.
    spec fn wraps(d: Self::D, r: RRData) -> bool;

    /// The carried value's own validity.
    spec fn d_wf(d: Self::D) -> bool;

    /// Whether a text form denotes a value of this kind.
    spec fn str_ok(s: Seq<char>) -> bool;

    /// Whether `d` is the value the text form denotes.
    spec fn str_matches(d: Self::D, s: Seq<char>) -> bool;

    /// The carried value, when the payload is of this kind.
    fn map<'a>(rrd: &'a RRData) -> (res: Option<&'a Self::D>)
        ensures
            match res {
                Some(d) => Self::wraps(*d, *rrd),
                None => forall|d: Self::D| !Self::wraps(d, *rrd),
            },
    ;

    /// Wraps a carried value into the payload.
    fn unmap(d: Self::D) -> (r: RRData)
        requires
            Self::d_wf(d),
        ensures
            Self::wraps(d, r),
            r.wf(),
    ;

    /// Parses the text form of a carried value.
    fn parse_data(s: &str) -> (r: Result<Self::D, DnsError>)
        ensures
            r is Ok <==> Self::str_ok(s@),
            r matches Ok(d) ==> Self::str_matches(d, s@) && Self::d_wf(d),
    ;
}

/// The marker for A payloads: an IPv4 address.
pub struct A;

impl RRDataMap for A {
    type D = Ipv4Address;

    open spec fn wraps(d: Ipv4Address, r: RRData) -> bool {
        r == RRData::A(d)
    }

    open spec fn d_wf(d: Ipv4Address) -> bool {
        true
    }

    open spec fn str_ok(s: Seq<char>) -> bool {
        dec_ipv4_text(s) is Some
    }

    open spec fn str_matches(d: Ipv4Address, s: Seq<char>) -> bool {
        dec_ipv4_text(s) == Some(d)
    }

    fn map<'a>(rrd: &'a RRData) -> (res: Option<&'a Ipv4Address>) {
        match rrd {
            RRData::A(a) => Some(a),
            _ => None,
        }
    }

    fn unmap(d: Ipv4Address) -> (r: RRData) {
        RRData::A(d)
    }

    fn parse_data(s: &str) -> (r: Result<Ipv4Address, DnsError>) {
        parse_ipv4_text(s)
    }
}

/// The marker for CNAME payloads: a canonical name.
pub struct CNAME;

impl RRDataMap for CNAME {
    type D = Name;

    open spec fn wraps(d: Name, r: RRData) -> bool {
        r == RRData::CNAME(d)
    }

    open spec fn d_wf(d: Name) -> bool {
        d.wf()
    }

    open spec fn str_ok(s: Seq<char>) -> bool {
        valid_name_chars(s)
    }

    open spec fn str_matches(d: Name, s: Seq<char>) -> bool {
        name_text(d@) == s
    }

    fn map<'a>(rrd: &'a RRData) -> (res: Option<&'a Name>) {
        match rrd {
            RRData::CNAME(n) => Some(n),
            _ => None,
        }
    }

    fn unmap(d: Name) -> (r: RRData) {
        RRData::CNAME(d)
    }

    fn parse_data(s: &str) -> (r: Result<Name, DnsError>) {
        Name::from_str(s)
    }
}

} // verus!
