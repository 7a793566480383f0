//! Validated domain-name labels and dot-joined names.

use vstd::prelude::*;

use crate::errors::DnsError;
use crate::wire::{enc_label, is_label_byte, wf_label_bytes};
use vstd::string::StringSliceAdditionalSpecFns;
use vstd::string::StrSliceExecFns;
use vstd::string::StringExecFns;

verus! {

/// True of the characters a label may contain: ASCII alphanumeric or `-`.
pub open spec fn is_label_char(c: char) -> bool {
    ('0' <= c <= '9') || ('A' <= c <= 'Z') || ('a' <= c <= 'z') || c == '-'
}

/// The text a sequence of label bytes displays as.
pub open spec fn label_text(l: Seq<u8>) -> Seq<char> {
    Seq::new(l.len(), |i: int| l[i] as char)
}

/// A single component of a domain name. Invariant: non-empty, every
/// character ASCII alphanumeric or hyphen; case is preserved as given.
pub struct Label {
    data: String,
}

impl Label {
    /// The label as the sequence of its ASCII byte values.
    pub closed spec fn view(&self) -> Seq<u8> {
        Seq::new(self.data@.len(), |i: int| self.data@[i] as u8)
    }

    /// The label as text.
    pub closed spec fn text(&self) -> Seq<char> {
        self.data@
    }

    /// Internal invariant: non-empty, alphanumeric or hyphen throughout.
    pub closed spec fn wf(&self) -> bool {
        self.data@.len() > 0 && forall|i: int|
            0 <= i < self.data@.len() ==> is_label_char(#[trigger] self.data@[i])
    }

    /// A well-formed label has well-formed bytes, and its text and its
    /// bytes determine one another position by position.
    pub proof fn lemma_wf(&self)
        requires
            self.wf(),
        ensures
            wf_label_bytes(self@),
            self@.len() == self.text().len(),
            self.text() == label_text(self@),
    {
        assert forall|i: int| 0 <= i < self.data@.len() implies is_label_byte(#[trigger] self@[i]) by {
            assert(is_label_char(self.data@[i]));
        }
        assert(self.text() =~= label_text(self@));
    }

    /// Validates and builds a label from a string slice: accepted exactly
    /// when the string is non-empty and alphanumeric/hyphen throughout.
    pub fn from_str(s: &str) -> (r: Result<Self, DnsError>)
        ensures
            r is Ok <==> (s@.len() > 0 && forall|i: int|
                0 <= i < s@.len() ==> is_label_char(#[trigger] s@[i])),
            r matches Ok(l) ==> l.wf() && l.text() == s@ && l@ == Seq::new(
                s@.len(),
                |i: int| s@[i] as u8,
            ),
            r matches Err(e) ==> e == DnsError::BadLabel,
    {
        let n = s.unicode_len();
        if n == 0 {
            return Err(DnsError::BadLabel);
        }
        for i in 0..n
            invariant
                n == s@.len(),
                forall|j: int| 0 <= j < i ==> is_label_char(#[trigger] s@[j]),
        {
            let c = s.get_char(i);
            let ok = ('0' <= c && c <= '9') || ('A' <= c && c <= 'Z') || ('a' <= c && c <= 'z')
                || c == '-';
            if !ok {
                return Err(DnsError::BadLabel);
            }
        }
        let l = Label { data: s.to_owned() };
        Ok(l)
    }

    /// As `from_str`, taking the string by value.
    pub fn from_string(s: String) -> (r: Result<Self, DnsError>)
        ensures
            r is Ok <==> (s@.len() > 0 && forall|i: int|
                0 <= i < s@.len() ==> is_label_char(#[trigger] s@[i])),
            r matches Ok(l) ==> l.wf() && l.text() == s@ && l@ == Seq::new(
                s@.len(),
                |i: int| s@[i] as u8,
            ),
            r matches Err(e) ==> e == DnsError::BadLabel,
    {
        Self::from_str(s.as_str())
    }

    /// Validates and builds a label from its ASCII byte values: accepted
    /// exactly when the bytes are non-empty and alphanumeric/hyphen.
    pub fn from_bytes(bytes: &Vec<u8>) -> (r: Result<Self, DnsError>)
        ensures
            r is Ok <==> wf_label_bytes(bytes@),
            r matches Ok(l) ==> l.wf() && l@ == bytes@ && l.text() == label_text(bytes@),
            r matches Err(e) ==> e == DnsError::BadLabel,
    {
        let n = bytes.len();
        if n == 0 {
            return Err(DnsError::BadLabel);
        }
        for i in 0..n
            invariant
                n == bytes@.len(),
                forall|j: int| 0 <= j < i ==> is_label_byte(#[trigger] bytes@[j]),
        {
            let b = bytes[i];
            let ok = (48 <= b && b <= 57) || (65 <= b && b <= 90) || (97 <= b && b <= 122) || b
                == 45;
            if !ok {
                return Err(DnsError::BadLabel);
            }
        }
        let s = string_from_ascii(bytes);
        assert(forall|i: int| 0 <= i < bytes@.len() ==> (#[trigger] bytes@[i] as char)
            == s@[i] && is_label_char(bytes@[i] as char));
        let l = Label { data: s };
        assert(l@ =~= bytes@);
        assert(l.text() =~= label_text(bytes@));
        Ok(l)
    }

    /// The label's text as a string slice.
    pub fn as_str(&self) -> (r: &str)
        ensures
            r@ == self.text(),
    {
        self.data.as_str()
    }

    /// Whether the label fits the one-byte wire length prefix: at most 63
    /// bytes long.
    pub fn wire_len_ok(&self) -> (r: bool)
        requires
            self.wf(),
        ensures
            r == (self@.len() <= 63),
    {
        let st = self.data.as_str();
        let bs = st.as_bytes();
        proof {
            self.lemma_wf();
            broadcast use vstd::string::is_ascii_spec_bytes;

            assert(vstd::string::is_ascii(st)) by {
                assert(forall|i: int| 0 <= i < st@.len() ==> '\0' <= #[trigger] st@[i] <= '\u{7f}')
                    by {
                    assert(forall|i: int|
                        0 <= i < self.data@.len() ==> is_label_char(#[trigger] self.data@[i]));
                }
            }
            assert(bs@ =~= self@);
        }
        bs.len() <= 63
    }

    /// Appends the label's wire form to `out`: a length byte, then the
    /// label bytes. Fails exactly when the label is over 63 bytes long,
    /// the most a one-byte length prefix can state; nothing is written
    /// then.
    pub fn serialize(&self, out: &mut Vec<u8>) -> (r: Result<(), DnsError>)
        requires
            self.wf(),
        ensures
            r is Ok <==> self@.len() <= 63,
            r is Ok ==> final(out)@ == old(out)@ + enc_label(self@),
            r is Err ==> final(out)@ == old(out)@ && (r matches Err(e) && e == DnsError::TooLong),
    {
        let st = self.data.as_str();
        proof {
            self.lemma_wf();
            broadcast use vstd::string::is_ascii_spec_bytes;

            assert(vstd::string::is_ascii(st)) by {
                assert(forall|i: int| 0 <= i < st@.len() ==> '\0' <= #[trigger] st@[i] <= '\u{7f}')
                    by {
                    assert(forall|i: int|
                        0 <= i < self.data@.len() ==> is_label_char(#[trigger] self.data@[i]));
                }
            }
        }
        let bs = st.as_bytes();
        assert(bs@ =~= self@);
        let n = bs.len();
        if n > 63 {
            return Err(DnsError::TooLong);
        }
        out.push(n as u8);
        for i in 0..n
            invariant
                n == bs@.len() <= 63,
                bs@ == self@,
                out@ == old(out)@ + seq![n as u8] + bs@.subrange(0, i as int),
        {
            let b = bs[i];
            out.push(b);
            assert(out@ =~= old(out)@ + seq![n as u8] + bs@.subrange(0, i + 1 as int));
        }
        assert(out@ =~= old(out)@ + enc_label(self@));
        Ok(())
    }
}

impl Clone for Label {
    /// Clones the label; the copy has the same bytes, text, and validity.
    fn clone(&self) -> (r: Self)
        ensures
            r@ == self@,
            r.text() == self.text(),
            r.wf() == self.wf(),
    {
        Label { data: self.data.clone() }
    }
}

/// The byte sequences of a sequence of labels, label by label.
pub open spec fn labels_view(ls: Seq<Label>) -> Seq<Seq<u8>> {
    Seq::new(ls.len(), |i: int| ls[i]@)
}

/// The text a name displays as: its labels joined with `.`, most specific
/// first. Names store their root-most label first, so the label at index 0
/// is printed last.
pub open spec fn name_text(nv: Seq<Seq<u8>>) -> Seq<char>
    decreases nv.len(),
{
    if nv.len() == 0 {
        Seq::empty()
    } else if nv.len() == 1 {
        label_text(nv[0])
    } else {
        name_text(nv.subrange(1, nv.len() as int)) + seq!['.'] + label_text(nv[0])
    }
}

/// True of the strings that denote a name: non-empty, every character a
/// label character or a dot, with no leading, trailing or doubled dot.
pub open spec fn valid_name_chars(s: Seq<char>) -> bool {
    &&& s.len() > 0
    &&& forall|i: int| 0 <= i < s.len() ==> is_label_char(#[trigger] s[i]) || s[i] == '.'
    &&& s[0] != '.'
    &&& s[s.len() - 1] != '.'
    &&& forall|i: int| 0 <= i < s.len() - 1 ==> !(#[trigger] s[i] == '.' && s[i + 1] == '.')
}

/// An ordered sequence of labels forming a full domain name, stored with
/// the root-most label first and displayed most specific first.
pub struct Name {
    labels: Vec<Label>,
}

impl Name {
    /// The name as the byte sequences of its labels, root-most first.
    pub closed spec fn view(&self) -> Seq<Seq<u8>> {
        labels_view(self.labels@)
    }

    /// Internal invariant: every label well-formed.
    pub closed spec fn wf(&self) -> bool {
        forall|i: int| 0 <= i < self.labels@.len() ==> (#[trigger] self.labels@[i]).wf()
    }

    /// A well-formed name has well-formed label bytes throughout.
    pub proof fn lemma_wf(&self)
        requires
            self.wf(),
        ensures
            forall|i: int| 0 <= i < self@.len() ==> wf_label_bytes(#[trigger] self@[i]),
    {
        assert forall|i: int| 0 <= i < self@.len() implies wf_label_bytes(#[trigger] self@[i]) by {
            self.labels@[i].lemma_wf();
        }
    }

    /// Builds a name from its labels, root-most label first.
    pub fn from_labels(labels: Vec<Label>) -> (r: Name)
        requires
            forall|i: int| 0 <= i < labels@.len() ==> (#[trigger] labels@[i]).wf(),
        ensures
            r.wf(),
            r@ == labels_view(labels@),
    {
        Name { labels }
    }

    /// Splits a dotted string into a name: accepted exactly when the
    /// string is non-empty labels joined by single dots. The resulting
    /// name displays as the given string.
    pub fn from_str(s: &str) -> (r: Result<Self, DnsError>)
        ensures
            r is Ok <==> valid_name_chars(s@),
            r matches Ok(n) ==> n.wf() && name_text(n@) == s@,
            r matches Err(e) ==> e == DnsError::BadLabel,
    {
        let n = s.unicode_len();
        let mut labels: Vec<Label> = Vec::new();
        let mut cur: Vec<u8> = Vec::new();
        let ghost mut seg_start: int = 0;
        for i in 0..n
            invariant
                n == s@.len(),
                0 <= seg_start <= i <= n,
                cur@.len() == i - seg_start,
                forall|j: int|
                    seg_start <= j < i ==> is_label_char(#[trigger] s@[j]) && cur@[j - seg_start]
                        == s@[j] as u8,
                forall|j: int| 0 <= j < cur@.len() ==> is_label_byte(#[trigger] cur@[j]),
                forall|j: int| 0 <= j < i ==> is_label_char(#[trigger] s@[j]) || s@[j] == '.',
                i > 0 ==> s@[0] != '.',
                forall|j: int| 0 <= j < i - 1 ==> !(#[trigger] s@[j] == '.' && s@[j + 1] == '.'),
                seg_start == 0 <==> labels@.len() == 0,
                seg_start > 0 ==> s@[seg_start - 1] == '.',
                forall|j: int| 0 <= j < labels@.len() ==> (#[trigger] labels@[j]).wf(),
                labels@.len() > 0 ==> name_text(labels_view(labels@)) == s@.subrange(
                    0,
                    seg_start - 1,
                ),
        {
            let c = s.get_char(i);
            if c == '.' {
                if cur.len() == 0 {
                    return Err(DnsError::BadLabel);
                }
                let lab = match Label::from_bytes(&cur) {
                    Ok(l) => l,
                    Err(_) => {
                        assert(wf_label_bytes(cur@));
                        return Err(DnsError::BadLabel);
                    },
                };
                proof {
                    assert(label_text(cur@) =~= s@.subrange(seg_start, i as int));
                }
                let ghost old_labels = labels@;
                labels.insert(0, lab);
                proof {
                    assert(labels_view(labels@).subrange(1, labels@.len() as int) =~= labels_view(
                        old_labels,
                    ));
                    assert(labels_view(labels@)[0] == lab@);
                    if old_labels.len() > 0 {
                        assert(name_text(labels_view(labels@)) == name_text(labels_view(old_labels))
                            + seq!['.'] + label_text(lab@));
                        assert(name_text(labels_view(labels@)) =~= s@.subrange(0, i as int));
                    } else {
                        assert(seg_start == 0);
                        assert(name_text(labels_view(labels@)) == label_text(lab@));
                        assert(name_text(labels_view(labels@)) =~= s@.subrange(0, i as int));
                    }
                }
                cur = Vec::new();
                proof {
                    seg_start = i + 1;
                }
            } else {
                let u = c as u32;
                let ok = (48 <= u && u <= 57) || (65 <= u && u <= 90) || (97 <= u && u <= 122) || u
                    == 45;
                if !ok {
                    assert(!is_label_char(s@[i as int]) && s@[i as int] != '.');
                    return Err(DnsError::BadLabel);
                }
                assert(u < 128);
                let b = #[verifier::truncate] (c as u8);
                assert(b as u32 == u && is_label_byte(b));
                cur.push(b);
            }
        }
        if cur.len() == 0 {
            proof {
                if seg_start == 0 {
                    assert(s@.len() == 0);
                } else {
                    assert(s@[s@.len() - 1] == '.');
                }
            }
            return Err(DnsError::BadLabel);
        }
        let lab = match Label::from_bytes(&cur) {
            Ok(l) => l,
            Err(_) => {
                assert(wf_label_bytes(cur@));
                return Err(DnsError::BadLabel);
            },
        };
        proof {
            assert(label_text(cur@) =~= s@.subrange(seg_start, n as int));
        }
        let ghost old_labels = labels@;
        labels.insert(0, lab);
        proof {
            assert(labels_view(labels@).subrange(1, labels@.len() as int) =~= labels_view(
                old_labels,
            ));
            assert(labels_view(labels@)[0] == lab@);
            if old_labels.len() > 0 {
                assert(name_text(labels_view(labels@)) == name_text(labels_view(old_labels))
                    + seq!['.'] + label_text(lab@));
                assert(name_text(labels_view(labels@)) =~= s@);
            } else {
                assert(name_text(labels_view(labels@)) == label_text(lab@));
                assert(name_text(labels_view(labels@)) =~= s@);
            }
        }
        Ok(Name { labels })
    }

    /// As `from_str`, taking the string by value.
    pub fn from_string(s: String) -> (r: Result<Self, DnsError>)
        ensures
            r is Ok <==> valid_name_chars(s@),
            r matches Ok(n) ==> n.wf() && name_text(n@) == s@,
            r matches Err(e) ==> e == DnsError::BadLabel,
    {
        Self::from_str(s.as_str())
    }

    /// The name's display text: its labels joined with dots, most
    /// specific first.
    pub fn to_string(&self) -> (r: String)
        requires
            self.wf(),
        ensures
            r@ == name_text(self@),
    {
        let mut s = String::new();
        let len = self.labels.len();
        let mut i: usize = len;
        while i > 0
            invariant
                i <= len,
                len == self.labels@.len(),
                self.wf(),
                s@ == name_text(self@.subrange(i as int, len as int)),
            decreases i,
        {
            i = i - 1;
            proof {
                self.labels@[i as int].lemma_wf();
                assert(self@.subrange(i as int, len as int)[0] == self@[i as int]);
                assert(self@.subrange(i as int, len as int).subrange(
                    1,
                    (len - i) as int,
                ) =~= self@.subrange(i + 1, len as int));
            }
            if i < len - 1 {
                s.append(".");
                proof {
                    reveal_strlit(".");
                }
            }
            s.append(self.labels[i].as_str());
            proof {
                if i == len - 1 {
                    assert(s@ =~= name_text(self@.subrange(i as int, len as int)));
                } else {
                    assert(s@ =~= name_text(self@.subrange(i as int, len as int)));
                }
            }
        }
        proof {
            if len == 0 {
                assert(self@.subrange(0, 0) =~= Seq::<Seq<u8>>::empty());
            } else {
                assert(self@.subrange(0, len as int) =~= self@);
            }
        }
        s
    }

    /// Whether the name is the bare root: no labels at all.
    pub fn is_root(&self) -> (r: bool)
        ensures
            r == (self@.len() == 0),
    {
        self.labels.len() == 0
    }

    /// Appends a label at the most specific position.
    pub fn push(&mut self, l: Label)
        requires
            old(self).wf(),
            l.wf(),
        ensures
            final(self).wf(),
            final(self)@ == old(self)@.push(l@),
    {
        self.labels.push(l);
        proof {
            assert(self@ =~= old(self)@.push(l@));
        }
    }

    /// Removes the most specific label, if any.
    pub fn pop(&mut self)
        requires
            old(self).wf(),
        ensures
            final(self).wf(),
            final(self)@ == if old(self)@.len() > 0 {
                old(self)@.drop_last()
            } else {
                old(self)@
            },
    {
        if self.labels.len() > 0 {
            self.labels.pop();
            proof {
                assert(self@ =~= old(self)@.drop_last());
            }
        } else {
            proof {
                assert(self@ =~= old(self)@);
            }
        }
    }

    /// The labels in display order, most specific first.
    pub fn iter(&self) -> (r: Vec<Label>)
        requires
            self.wf(),
        ensures
            r@.len() == self@.len(),
            forall|i: int| 0 <= i < r@.len() ==> (#[trigger] r@[i])@ == self@[self@.len() - 1 - i]
                && r@[i].wf(),
    {
        let mut r: Vec<Label> = Vec::new();
        let len = self.labels.len();
        let mut i: usize = len;
        while i > 0
            invariant
                i <= len,
                len == self.labels@.len(),
                self.wf(),
                r@.len() == len - i,
                forall|j: int| 0 <= j < r@.len() ==> (#[trigger] r@[j])@ == self@[len - 1 - j]
                    && r@[j].wf(),
            decreases i,
        {
            i = i - 1;
            r.push(self.labels[i].clone());
        }
        r
    }

    /// Appends the name's wire form to `out`: each label length-prefixed,
    /// most specific first, then the zero-length root label. Fails exactly
    /// when some label is over 63 bytes; nothing is written then.
    pub fn serialize(&self, out: &mut Vec<u8>) -> (r: Result<(), DnsError>)
        requires
            self.wf(),
        ensures
            r is Ok <==> crate::wire::wf_name_wire(self@),
            r is Ok ==> final(out)@ == old(out)@ + crate::wire::enc_name(self@),
            r is Err ==> final(out)@ == old(out)@ && (r matches Err(e) && e == DnsError::TooLong),
    {
        let len = self.labels.len();
        for i in 0..len
            invariant
                len == self.labels@.len(),
                self.wf(),
                forall|j: int| 0 <= j < i ==> (#[trigger] self@[j]).len() <= 63,
        {
            if !self.labels[i].wire_len_ok() {
                proof {
                    self.labels@[i as int].lemma_wf();
                    assert(!crate::wire::wf_label_wire(self@[i as int]));
                    assert(!crate::wire::wf_name_wire(self@));
                }
                return Err(DnsError::TooLong);
            }
        }
        proof {
            self.lemma_wf();
            assert(crate::wire::wf_name_wire(self@));
        }
        let mut i: usize = len;
        while i > 0
            invariant
                i <= len,
                len == self.labels@.len(),
                self.wf(),
                crate::wire::wf_name_wire(self@),
                out@ == old(out)@ + crate::wire::enc_labels(self@.subrange(i as int, len as int)),
            decreases i,
        {
            i = i - 1;
            let res = self.labels[i].serialize(out);
            match res {
                Ok(()) => (),
                Err(_) => {
                    // every label was checked to fit; this cannot happen
                    assert(crate::wire::wf_label_wire(self@[i as int]));
                    assert(false);
                    return Err(DnsError::TooLong);
                },
            }
            proof {
                let sub = self@.subrange(i as int, len as int);
                crate::wire::lemma_enc_labels_peel_first(sub);
                assert(sub.subrange(1, sub.len() as int) =~= self@.subrange(i + 1, len as int));
                assert(sub[0] == self@[i as int]);
                assert(out@ =~= old(out)@ + crate::wire::enc_labels(sub));
            }
        }
        out.push(0);
        proof {
            assert(self@.subrange(0, len as int) =~= self@);
            assert(out@ =~= old(out)@ + crate::wire::enc_name(self@));
        }
        Ok(())
    }
}

impl Clone for Name {
    /// Clones the name; the copy has the same labels and validity.
    fn clone(&self) -> (r: Self)
        ensures
            r@ == self@,
            r.wf() == self.wf(),
    {
        let mut labels: Vec<Label> = Vec::new();
        let len = self.labels.len();
        for i in 0..len
            invariant
                len == self.labels@.len(),
                labels@.len() == i,
                forall|j: int| 0 <= j < i ==> (#[trigger] labels@[j])@ == self.labels@[j]@
                    && labels@[j].wf() == self.labels@[j].wf(),
        {
            labels.push(self.labels[i].clone());
        }
        let r = Name { labels };
        proof {
            assert(r@ =~= self@);
            if self.wf() {
                assert forall|i: int| 0 <= i < r.labels@.len() implies (
                #[trigger] r.labels@[i]).wf() by {
                    assert(self.labels@[i].wf());
                }
            }
            if r.wf() {
                assert forall|i: int| 0 <= i < self.labels@.len() implies (
                #[trigger] self.labels@[i]).wf() by {
                    assert(r.labels@[i].wf());
                }
            }
        }
        r
    }
}

/// Builds the string an ASCII byte sequence spells.
///
/// Relies on `String::from_utf8`: bytes below 128 are valid UTF-8 and
/// decode to the characters with the same code values.
#[verifier::external_body]
fn string_from_ascii(bytes: &Vec<u8>) -> (r: String)
    requires
        forall|i: int| 0 <= i < bytes@.len() ==> bytes@[i] < 128,
    ensures
        r@ == Seq::new(bytes@.len(), |i: int| bytes@[i] as char),
{
    match String::from_utf8(bytes.clone()) {
        Ok(s) => s,
        Err(_) => String::new(),
    }
}

} // verus!
