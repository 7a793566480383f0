//! The question section entry of a DNS message.

use vstd::prelude::*;

use crate::enums::{Class, Type};
use crate::errors::DnsError;
use crate::name::{name_text, valid_name_chars, Name};

verus! {

/// A question: a name, a query type, a query class, and a
/// unicast-preference bit carried as the class field's high bit.
#[derive(Clone)]
pub struct Question {
    pub name: Name,
    pub prefer_unicast: bool,
    pub qtype: Type,
    pub qclass: Class,
}

/// The mathematical value of a question.
pub struct QuestionV {
    pub name: Seq<Seq<u8>>,
    pub prefer_unicast: bool,
    pub qtype: Type,
    pub qclass: Class,
}

impl View for Question {
    type V = QuestionV;

    open spec fn view(&self) -> QuestionV {
        QuestionV {
            name: self.name@,
            prefer_unicast: self.prefer_unicast,
            qtype: self.qtype,
            qclass: self.qclass,
        }
    }
}

/// The text a class displays as.
pub open spec fn class_text(c: Class) -> Seq<char> {
    match c {
        Class::IN => "IN"@,
        Class::CS => "CS"@,
        Class::CH => "CH"@,
        Class::HS => "HS"@,
        Class::Any => "Any"@,
    }
}

/// The text a query type displays as.
pub open spec fn type_text(t: Type) -> Seq<char> {
    match t {
        Type::A => "A"@,
        Type::NS => "NS"@,
        Type::MF => "MF"@,
        Type::CNAME => "CNAME"@,
        Type::SOA => "SOA"@,
        Type::MB => "MB"@,
        Type::MG => "MG"@,
        Type::MR => "MR"@,
        Type::NULL => "NULL"@,
        Type::WKS => "WKS"@,
        Type::PTR => "PTR"@,
        Type::HINFO => "HINFO"@,
        Type::MINFO => "MINFO"@,
        Type::MX => "MX"@,
        Type::TXT => "TXT"@,
        Type::AAAA => "AAAA"@,
        Type::SRV => "SRV"@,
        Type::OPT => "OPT"@,
        Type::AXFR => "AXFR"@,
        Type::MAILB => "MAILB"@,
        Type::MAILA => "MAILA"@,
        Type::All => "All"@,
    }
}

/// The text a question displays as: class, type, then the name.
pub open spec fn question_text(q: QuestionV) -> Seq<char> {
    class_text(q.qclass) + seq![' '] + type_text(q.qtype) + seq![' '] + name_text(q.name)
}

impl Question {
    /// Internal invariant: the name is well-formed.
    pub open spec fn wf(&self) -> bool {
        self.name.wf()
    }

    /// Builds a question on a name; the unicast-preference bit starts
    /// clear.
    pub fn new(n: Name, c: Class, qt: Type) -> (r: Self)
        requires
            n.wf(),
        ensures
            r.wf(),
            r@ == (QuestionV { name: n@, prefer_unicast: false, qtype: qt, qclass: c }),
    {
        Question { name: n, prefer_unicast: false, qtype: qt, qclass: c }
    }

    /// Builds a question on a dotted name string: accepted exactly when
    /// the string denotes a name.
    pub fn new_str(n: &str, c: Class, qt: Type) -> (r: Result<Self, DnsError>)
        ensures
            r is Ok <==> valid_name_chars(n@),
            r matches Ok(q) ==> q.wf() && name_text(q@.name) == n@ && q@.prefer_unicast == false
                && q@.qtype == qt && q@.qclass == c,
            r matches Err(e) ==> e == DnsError::BadLabel,
    {
        let name = match Name::from_str(n) {
            Ok(nm) => nm,
            Err(e) => {
                return Err(e);
            },
        };
        Ok(Self::new(name, c, qt))
    }

    /// Appends the question's wire form to `out`: name, type code, then
    /// the class word with the unicast-preference bit in the high bit.
    /// Fails exactly when a label of the name is over-long; nothing is
    /// written then.
    pub fn serialize(&self, out: &mut Vec<u8>) -> (r: Result<(), DnsError>)
        requires
            self.wf(),
        ensures
            r is Ok <==> crate::wire::wf_question_wire(self@),
            r is Ok ==> final(out)@ == old(out)@ + crate::wire::enc_question(self@),
            r is Err ==> final(out)@ == old(out)@ && (r matches Err(e) && e == DnsError::TooLong),
    {
        match self.name.serialize(out) {
            Ok(()) => (),
            Err(e) => {
                return Err(e);
            },
        }
        crate::wire::push_u16(out, self.qtype.code());
        let mut cw = self.qclass.code();
        if self.prefer_unicast {
            cw = cw + 32768;
        }
        crate::wire::push_u16(out, cw);
        proof {
            assert(cw == crate::wire::question_class_word(self@));
            assert(out@ =~= old(out)@ + crate::wire::enc_question(self@));
        }
        Ok(())
    }

    /// The question's display text: class, type, then the name.
    pub fn to_string(&self) -> (r: String)
        requires
            self.wf(),
        ensures
            r@ == question_text(self@),
    {
        let mut s = String::new();
        match self.qclass {
            Class::IN => s.append("IN"),
            Class::CS => s.append("CS"),
            Class::CH => s.append("CH"),
            Class::HS => s.append("HS"),
            Class::Any => s.append("Any"),
        }
        s.append(" ");
        match self.qtype {
            Type::A => s.append("A"),
            Type::NS => s.append("NS"),
            Type::MF => s.append("MF"),
            Type::CNAME => s.append("CNAME"),
            Type::SOA => s.append("SOA"),
            Type::MB => s.append("MB"),
            Type::MG => s.append("MG"),
            Type::MR => s.append("MR"),
            Type::NULL => s.append("NULL"),
            Type::WKS => s.append("WKS"),
            Type::PTR => s.append("PTR"),
            Type::HINFO => s.append("HINFO"),
            Type::MINFO => s.append("MINFO"),
            Type::MX => s.append("MX"),
            Type::TXT => s.append("TXT"),
            Type::AAAA => s.append("AAAA"),
            Type::SRV => s.append("SRV"),
            Type::OPT => s.append("OPT"),
            Type::AXFR => s.append("AXFR"),
            Type::MAILB => s.append("MAILB"),
            Type::MAILA => s.append("MAILA"),
            Type::All => s.append("All"),
        }
        s.append(" ");
        let nt = self.name.to_string();
        s.append(nt.as_str());
        proof {
            reveal_strlit(" ");
            assert(" "@ =~= seq![' ']);
            assert(s@ =~= question_text(self@));
        }
        s
    }
}

} // verus!
