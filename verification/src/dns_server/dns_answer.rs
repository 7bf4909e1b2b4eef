use crate::dns_server::dns_header::{spec_u16_bytes, spec_u32_bytes};
use crate::dns_server::domain_name::{spec_encode_name, DomainName, LabelEncodable};
use vstd::prelude::*;

verus! {

/// Payload of a resource record; the only defined case is an A record's
/// IPv4 address, four octets in network order.
#[derive(Debug, Clone, Copy, PartialEq, Eq)]
pub enum RecordData {
    IpAddress([u8; 4]),
}

/// The payload bytes a record carries on the wire.
pub open spec fn spec_rdata_bytes(r: RecordData) -> Seq<u8> {
    match r {
        RecordData::IpAddress(octets) => octets@,
    }
}

/// Spec-level model of a resource record.
pub ghost struct AnswerModel {
    pub name: Seq<u8>,
    pub record_type: u16,
    pub class: u16,
    pub ttl: u32,
    pub rdlength: u16,
    pub rdata: Seq<u8>,
}

/// One resource record (answer): a name-associated datum returned by the
/// server.
#[derive(Debug)]
pub struct DnsAnswer {
    pub domain_name: DomainName,
    pub record_type: u16,
    pub class: u16,
    pub ttl: u32,
    pub rdlength: u16,
    pub rdata: RecordData,
}

impl View for DnsAnswer {
    type V = AnswerModel;

    open spec fn view(&self) -> AnswerModel {
        AnswerModel {
            name: self.domain_name.spec_encoded_label(),
            record_type: self.record_type,
            class: self.class,
            ttl: self.ttl,
            rdlength: self.rdlength,
            rdata: spec_rdata_bytes(self.rdata),
        }
    }
}

/// Wire bytes of one record: encoded name, big-endian type, class, ttl and
/// rdlength, then the payload bytes.
pub open spec fn spec_answer_bytes(a: AnswerModel) -> Seq<u8> {
    a.name + spec_u16_bytes(a.record_type) + spec_u16_bytes(a.class) + spec_u32_bytes(a.ttl)
        + spec_u16_bytes(a.rdlength) + a.rdata
}

impl DnsAnswer {
    /// Serialize into wire bytes.
    pub fn serialize(&self) -> (r: Vec<u8>)
        ensures
            r@ == spec_answer_bytes(self@),
    {
        let mut buf = self.domain_name.encoded_label();
        buf.push((self.record_type / 256) as u8);
        buf.push((self.record_type % 256) as u8);
        buf.push((self.class / 256) as u8);
        buf.push((self.class % 256) as u8);
        buf.push((self.ttl / 0x1000000) as u8);
        buf.push(((self.ttl / 0x10000) % 256) as u8);
        buf.push(((self.ttl / 256) % 256) as u8);
        buf.push((self.ttl % 256) as u8);
        buf.push((self.rdlength / 256) as u8);
        buf.push((self.rdlength % 256) as u8);
        match &self.rdata {
            RecordData::IpAddress(octets) => {
                buf.push(octets[0]);
                buf.push(octets[1]);
                buf.push(octets[2]);
                buf.push(octets[3]);
            },
        }
        proof {
            assert(spec_rdata_bytes(self.rdata) =~= seq![
                spec_rdata_bytes(self.rdata)[0],
                spec_rdata_bytes(self.rdata)[1],
                spec_rdata_bytes(self.rdata)[2],
                spec_rdata_bytes(self.rdata)[3],
            ]);
            assert(buf@ =~= spec_answer_bytes(self@));
        }
        buf
    }
}

impl Clone for DnsAnswer {
    /// A clone has the same model.
    fn clone(&self) -> (r: Self)
        ensures
            r@ == self@,
    {
        DnsAnswer {
            domain_name: self.domain_name.clone(),
            record_type: self.record_type,
            class: self.class,
            ttl: self.ttl,
            rdlength: self.rdlength,
            rdata: self.rdata,
        }
    }
}

impl Default for DnsAnswer {
    /// The synthesized default record: empty root name, type A, class IN,
    /// a 60-second ttl and the all-zero address.
    fn default() -> (a: DnsAnswer)
        ensures
            a@ == (AnswerModel {
                name: spec_encode_name(Seq::<u8>::empty()),
                record_type: 1,
                class: 1,
                ttl: 60,
                rdlength: 4,
                rdata: seq![0u8, 0u8, 0u8, 0u8],
            }),
    {
        let a = DnsAnswer {
            domain_name: DomainName::Text(String::new()),
            record_type: 1,
            class: 1,
            ttl: 60,
            rdlength: 4,
            rdata: RecordData::IpAddress([0, 0, 0, 0]),
        };
        proof {
            assert(vstd::utf8::encode_utf8(Seq::<char>::empty()) =~= Seq::<u8>::empty());
            assert(spec_rdata_bytes(a.rdata) =~= seq![0u8, 0u8, 0u8, 0u8]);
        }
        a
    }
}

} // verus!
