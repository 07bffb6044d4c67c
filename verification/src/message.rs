//! DNS messages as the registry reads them, and the fingerprint that a
//! response is cached under.

use vstd::prelude::*;

verus! {

/// The question of a DNS message.
#[derive(Debug, Clone, PartialEq, Eq)]
pub struct Question {
    /// The name asked for, in the case the client wrote it in.
    pub name: Vec<u8>,
    /// The record type asked for.
    pub qtype: u16,
    /// The class asked for.
    pub qclass: u16,
}

/// A `Question` as contracts see it.
pub struct QuestionView {
    pub name: Seq<u8>,
    pub qtype: u16,
    pub qclass: u16,
}

impl View for Question {
    type V = QuestionView;

    open spec fn view(&self) -> QuestionView {
        QuestionView { name: self.name@, qtype: self.qtype, qclass: self.qclass }
    }
}

/// A DNS message: a query, or the response to one.
#[derive(Debug, Clone, PartialEq, Eq)]
pub struct Message {
    /// The transaction id.
    pub id: u16,
    /// The header's flags.
    pub flags: u16,
    /// The question.
    pub question: Question,
    /// The TTL of each record of the answer section, in the section's order.
    pub answer_ttls: Vec<u32>,
    /// The minimum field of the SOA record of the authority section, if the
    /// section has one.
    pub soa_minimum: Option<u32>,
    /// What follows the question: the answer, authority and additional
    /// sections as bytes, in the form the caller keeps them in. The library
    /// hands them on as they are.
    pub sections: Vec<u8>,
}

/// A `Message` as contracts see it.
pub struct MessageView {
    pub id: u16,
    pub flags: u16,
    pub question: QuestionView,
    pub answer_ttls: Seq<u32>,
    pub soa_minimum: Option<u32>,
    pub sections: Seq<u8>,
}

impl View for Message {
    type V = MessageView;

    open spec fn view(&self) -> MessageView {
        MessageView {
            id: self.id,
            flags: self.flags,
            question: self.question@,
            answer_ttls: self.answer_ttls@,
            soa_minimum: self.soa_minimum,
            sections: self.sections@,
        }
    }
}

/// An ASCII letter in lower case; any other byte as it is.
pub open spec fn lower(b: u8) -> u8 {
    if 0x41 <= b <= 0x5a {
        (b + 0x20) as u8
    } else {
        b
    }
}

/// A name with its ASCII letters in lower case.
pub open spec fn lowered(name: Seq<u8>) -> Seq<u8> {
    name.map_values(|b: u8| lower(b))
}

/// What a response is cached under: the name in lower case, the type and
/// the class of the question. The transaction id and the flags play no part.
pub type Key = (Seq<u8>, u16, u16);

/// The fingerprint of a question.
pub open spec fn key_of(q: QuestionView) -> Key {
    (lowered(q.name), q.qtype, q.qclass)
}

/// The fingerprint of a question, as the cache holds it.
#[derive(Debug, Clone, PartialEq, Eq)]
pub struct Fingerprint {
    name: Vec<u8>,
    qtype: u16,
    qclass: u16,
}

impl View for Fingerprint {
    type V = Key;

    closed spec fn view(&self) -> Key {
        (self.name@, self.qtype, self.qclass)
    }
}

/// A copy of `bytes`.
pub fn copy_bytes(bytes: &Vec<u8>) -> (copy: Vec<u8>)
    ensures
        copy@ == bytes@,
{
    let mut copy: Vec<u8> = Vec::new();
    let mut i: usize = 0;
    while i < bytes.len()
        invariant
            i <= bytes.len(),
            copy@ == bytes@.take(i as int),
        decreases bytes.len() - i,
    {
        copy.push(bytes[i]);
        assert(copy@ =~= bytes@.take(i + 1));
        i += 1;
    }
    assert(bytes@.take(bytes.len() as int) =~= bytes@);
    copy
}

/// Whether `a` and `b` hold the same bytes.
pub fn same_bytes(a: &Vec<u8>, b: &Vec<u8>) -> (same: bool)
    ensures
        same == (a@ == b@),
{
    if a.len() != b.len() {
        return false;
    }
    let mut i: usize = 0;
    while i < a.len()
        invariant
            i <= a.len(),
            a.len() == b.len(),
            a@.take(i as int) == b@.take(i as int),
        decreases a.len() - i,
    {
        if a[i] != b[i] {
            return false;
        }
        assert(a@.take(i + 1) =~= a@.take(i as int).push(a@[i as int]));
        assert(b@.take(i + 1) =~= b@.take(i as int).push(b@[i as int]));
        i += 1;
    }
    assert(a@.take(a.len() as int) =~= a@);
    assert(b@.take(b.len() as int) =~= b@);
    true
}

impl Question {
    /// The fingerprint of the question.
    pub fn fingerprint(&self) -> (f: Fingerprint)
        ensures
            f@ == key_of(self@),
    {
        let mut name: Vec<u8> = Vec::new();
        let mut i: usize = 0;
        while i < self.name.len()
            invariant
                i <= self.name.len(),
                name@ == lowered(self.name@.take(i as int)),
            decreases self.name.len() - i,
        {
            let b = self.name[i];
            let l: u8 = if 0x41 <= b && b <= 0x5a {
                b + 0x20
            } else {
                b
            };
            name.push(l);
            assert(name@ =~= lowered(self.name@.take(i + 1)));
            i += 1;
        }
        assert(self.name@.take(self.name.len() as int) =~= self.name@);
        Fingerprint { name, qtype: self.qtype, qclass: self.qclass }
    }

    /// A copy of the question.
    pub fn duplicate(&self) -> (q: Question)
        ensures
            q@ == self@,
    {
        Question { name: copy_bytes(&self.name), qtype: self.qtype, qclass: self.qclass }
    }
}

impl Fingerprint {
    /// Whether two fingerprints are of questions that the cache takes for one.
    pub fn matches(&self, other: &Fingerprint) -> (same: bool)
        ensures
            same == (self@ == other@),
    {
        self.qtype == other.qtype && self.qclass == other.qclass && same_bytes(
            &self.name,
            &other.name,
        )
    }
}

} // verus!
