use crate::dns_server::dns_header::spec_u16_bytes;
use crate::dns_server::domain_name::{spec_encode_name, DomainName, LabelEncodable};
use vstd::prelude::*;

verus! {

/// Spec-level model of a question: the wire bytes its name emits, plus the
/// query type and class.
pub ghost struct QuestionModel {
    pub name: Seq<u8>,
    pub query_type: u16,
    pub query_class: u16,
}

/// One question: a `(name, type, class)` tuple expressing what the client
/// wants resolved.
#[derive(Debug)]
pub struct DnsQuestion {
    pub domain_name: DomainName,
    pub query_type: u16,
    pub query_class: u16,
}

impl View for DnsQuestion {
    type V = QuestionModel;

    open spec fn view(&self) -> QuestionModel {
        QuestionModel {
            name: self.domain_name.spec_encoded_label(),
            query_type: self.query_type,
            query_class: self.query_class,
        }
    }
}

/// Wire bytes of one question: encoded name, then big-endian type and
/// class.
pub open spec fn spec_question_bytes(q: QuestionModel) -> Seq<u8> {
    q.name + spec_u16_bytes(q.query_type) + spec_u16_bytes(q.query_class)
}

impl DnsQuestion {
    /// Serialize into wire bytes.
    pub fn serialize(&self) -> (r: Vec<u8>)
        ensures
            r@ == spec_question_bytes(self@),
    {
        let mut buf = self.domain_name.encoded_label();
        buf.push((self.query_type / 256) as u8);
        buf.push((self.query_type % 256) as u8);
        buf.push((self.query_class / 256) as u8);
        buf.push((self.query_class % 256) as u8);
        proof {
            assert(buf@ =~= spec_question_bytes(self@));
        }
        buf
    }
}

impl Clone for DnsQuestion {
    /// A clone has the same model.
    fn clone(&self) -> (r: Self)
        ensures
            r@ == self@,
    {
        DnsQuestion {
            domain_name: self.domain_name.clone(),
            query_type: self.query_type,
            query_class: self.query_class,
        }
    }
}

impl Default for DnsQuestion {
    /// The synthesized default question: the empty root name, type A (1),
    /// class IN (1).
    fn default() -> (q: DnsQuestion)
        ensures
            q@ == (QuestionModel {
                name: spec_encode_name(Seq::<u8>::empty()),
                query_type: 1,
                query_class: 1,
            }),
    {
        let q = DnsQuestion {
            domain_name: DomainName::Text(String::new()),
            query_type: 1,
            query_class: 1,
        };
        proof {
            assert(vstd::utf8::encode_utf8(Seq::<char>::empty()) =~= Seq::<u8>::empty());
        }
        q
    }
}

} // verus!
