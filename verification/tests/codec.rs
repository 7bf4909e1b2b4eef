use dns_forwarder::dns_server::dns_answer::{DnsAnswer, RecordData};
use dns_forwarder::dns_server::dns_header::DnsHeader;
use dns_forwarder::dns_server::dns_message::{DnsMessage, DnsMessageForm};
use dns_forwarder::dns_server::dns_question::DnsQuestion;
use dns_forwarder::dns_server::domain_name::{DomainName, LabelEncodable};

fn name_wire() -> Vec<u8> {
    let mut v = vec![12u8];
    v.extend_from_slice(b"codecrafters");
    v.push(2);
    v.extend_from_slice(b"io");
    v.push(0);
    v
}

fn s1_inbound() -> Vec<u8> {
    let mut v = vec![0x04u8, 0xD2, 0x01, 0x00, 0x00, 0x01, 0x00, 0x00, 0x00, 0x00, 0x00, 0x00];
    v.extend_from_slice(&name_wire());
    v.extend_from_slice(&[0x00, 0x01, 0x00, 0x01]);
    v
}

#[test]
fn header_serialize_expected_bytes() {
    let h = DnsHeader {
        id: 1234,
        qr: 1,
        opcode: 0,
        aa: 0,
        tc: 0,
        rd: 0,
        ra: 0,
        z: 0,
        rcode: 0,
        qdcount: 1,
        ancount: 1,
        nscount: 0,
        arcount: 0,
    };
    assert_eq!(
        h.serialize(),
        vec![0x04, 0xD2, 0x80, 0x00, 0x00, 0x01, 0x00, 0x01, 0x00, 0x00, 0x00, 0x00]
    );
}

#[test]
fn header_parse_fields() {
    let bytes = [0x04u8, 0xD2, 0x01, 0x00, 0x00, 0x01, 0x00, 0x00, 0x00, 0x00, 0x00, 0x00];
    let h = DnsMessage::parse_header(&bytes).unwrap();
    assert_eq!(h.id, 1234);
    assert_eq!(h.qr, 0);
    assert_eq!(h.opcode, 0);
    assert_eq!(h.aa, 0);
    assert_eq!(h.tc, 0);
    assert_eq!(h.rd, 1);
    assert_eq!(h.ra, 0);
    assert_eq!(h.z, 0);
    assert_eq!(h.rcode, 0);
    assert_eq!(h.qdcount, 1);
    assert_eq!(h.ancount, 0);
    assert_eq!(h.nscount, 0);
    assert_eq!(h.arcount, 0);
}

#[test]
fn header_round_trip() {
    let h = DnsHeader {
        id: 0xBEEF,
        qr: 1,
        opcode: 11,
        aa: 1,
        tc: 0,
        rd: 1,
        ra: 1,
        z: 5,
        rcode: 9,
        qdcount: 513,
        ancount: 2,
        nscount: 7,
        arcount: 65535,
    };
    let bytes = h.serialize();
    let back = DnsMessage::parse_header(&bytes).unwrap();
    assert_eq!(back, h);
}

#[test]
fn header_too_short() {
    let bytes = [0x04u8, 0xD2, 0x01, 0x00, 0x00];
    assert!(DnsMessage::parse_header(&bytes).is_none());
}

#[test]
fn encode_text_name() {
    let name = DomainName::Text(String::from("codecrafters.io"));
    assert_eq!(name.to_encoded_label(), name_wire());
}

#[test]
fn encode_empty_name() {
    let name = DomainName::Text(String::new());
    assert_eq!(name.to_encoded_label(), vec![0u8]);
}

#[test]
fn encode_wire_passthrough() {
    let name = DomainName::Wire(name_wire());
    assert_eq!(name.to_encoded_label(), name_wire());
}

#[test]
fn decode_uncompressed_round_trip() {
    let datagram = name_wire();
    let (decoded, cursor) = DnsMessage::decode_domain(&datagram, 0).unwrap();
    assert_eq!(decoded, name_wire());
    assert_eq!(cursor, datagram.len());
}

#[test]
fn decode_pointer_resolves_to_inline_bytes() {
    // the name sits at offset 0; a pointer to it follows at offset 17
    let mut datagram = name_wire();
    let ptr_at = datagram.len();
    datagram.push(0xC0);
    datagram.push(0x00);
    let (via_pointer, cursor) = DnsMessage::decode_domain(&datagram, ptr_at).unwrap();
    let (inline, _) = DnsMessage::decode_domain(&datagram, 0).unwrap();
    assert_eq!(via_pointer, inline);
    assert_eq!(via_pointer, name_wire());
    assert_eq!(cursor, ptr_at + 2);
}

#[test]
fn decode_reserved_bits_fail() {
    let datagram = vec![0x40u8, 0x01, 0x00];
    assert!(DnsMessage::decode_domain(&datagram, 0).is_none());
    let datagram2 = vec![0x80u8, 0x01, 0x00];
    assert!(DnsMessage::decode_domain(&datagram2, 0).is_none());
}

#[test]
fn decode_truncated_label_fails() {
    let datagram = vec![5u8, 1, 2];
    assert!(DnsMessage::decode_domain(&datagram, 0).is_none());
}

#[test]
fn decode_forward_pointer_rejected() {
    let datagram = vec![0xC0u8, 0x02, 1, 97, 0];
    assert!(DnsMessage::decode_domain(&datagram, 0).is_none());
}

#[test]
fn decode_truncated_pointer_fails() {
    let datagram = vec![1u8, 97, 0, 0xC0];
    assert!(DnsMessage::decode_domain(&datagram, 3).is_none());
}

#[test]
fn slice_byte_values() {
    assert_eq!(DnsMessage::slice_byte(0x81, 0, 1), Some(1));
    assert_eq!(DnsMessage::slice_byte(0x81, 1, 5), Some(0));
    assert_eq!(DnsMessage::slice_byte(0x81, 7, 8), Some(1));
    assert_eq!(DnsMessage::slice_byte(0x10, 1, 5), Some(2));
    assert_eq!(DnsMessage::slice_byte(0xFF, 0, 8), Some(255));
    assert_eq!(DnsMessage::slice_byte(0x81, 3, 3), None);
    assert_eq!(DnsMessage::slice_byte(0x81, 5, 1), None);
    assert_eq!(DnsMessage::slice_byte(0x81, 0, 9), None);
}

#[test]
fn to_u16_value() {
    assert_eq!(DnsMessage::to_u16(&[0x04, 0xD2]), 1234);
    assert_eq!(DnsMessage::to_u16(&[0xFF, 0xFF]), 65535);
}

#[test]
fn to_u32_value() {
    assert_eq!(DnsMessage::to_u32(&[0x00, 0x00, 0x00, 0x3C]), 60);
    assert_eq!(DnsMessage::to_u32(&[0x01, 0x02, 0x03, 0x04]), 0x01020304);
}

#[test]
fn consume_fields() {
    let bytes = vec![0x00u8, 0x01, 0x00, 0x00, 0x00, 0x3C];
    assert_eq!(DnsMessage::consume_2bytes_fields(&bytes, 0), Some((1, 2)));
    assert_eq!(DnsMessage::consume_4bytes_fields(&bytes, 2), Some((60, 6)));
    assert_eq!(DnsMessage::consume_2bytes_fields(&bytes, 5), None);
    assert_eq!(DnsMessage::consume_4bytes_fields(&bytes, 3), None);
}

#[test]
fn question_serialize_bytes() {
    let q = DnsQuestion {
        domain_name: DomainName::Text(String::from("codecrafters.io")),
        query_type: 1,
        query_class: 1,
    };
    let mut expected = name_wire();
    expected.extend_from_slice(&[0x00, 0x01, 0x00, 0x01]);
    assert_eq!(q.serialize(), expected);
}

#[test]
fn answer_serialize_bytes() {
    let a = DnsAnswer {
        domain_name: DomainName::Wire(name_wire()),
        record_type: 1,
        class: 1,
        ttl: 60,
        rdlength: 4,
        rdata: RecordData::IpAddress([8, 8, 8, 8]),
    };
    let mut expected = name_wire();
    expected.extend_from_slice(&[
        0x00, 0x01, 0x00, 0x01, 0x00, 0x00, 0x00, 0x3C, 0x00, 0x04, 0x08, 0x08, 0x08, 0x08,
    ]);
    assert_eq!(a.serialize(), expected);
}

#[test]
fn default_values() {
    let h = DnsHeader::default();
    assert_eq!(h.id, 1234);
    assert_eq!(h.qr, 1);
    assert_eq!(h.qdcount, 1);
    assert_eq!(h.ancount, 1);
    assert_eq!(h.nscount, 0);
    assert_eq!(h.arcount, 0);
    let q = DnsQuestion::default();
    assert_eq!(q.query_type, 1);
    assert_eq!(q.query_class, 1);
    assert_eq!(q.domain_name.to_encoded_label(), vec![0u8]);
    let a = DnsAnswer::default();
    assert_eq!(a.record_type, 1);
    assert_eq!(a.class, 1);
    assert_eq!(a.ttl, 60);
    assert_eq!(a.rdlength, 4);
    assert_eq!(a.rdata, RecordData::IpAddress([0, 0, 0, 0]));
    assert_eq!(a.domain_name.to_encoded_label(), vec![0u8]);
}

#[test]
fn parse_single_question_request() {
    let datagram = s1_inbound();
    let parsed = DnsMessage::parse(&datagram);
    let form = match parsed {
        DnsMessage::DnsRequest(form) => form,
        DnsMessage::DnsResponse(_) => panic!("parse must yield a request"),
    };
    assert_eq!(form.dns_header.id, 1234);
    assert_eq!(form.dns_header.rd, 1);
    assert_eq!(form.dns_header.qdcount, 1);
    assert_eq!(form.dns_questions.len(), 1);
    let q = &form.dns_questions[0];
    assert_eq!(q.query_type, 1);
    assert_eq!(q.query_class, 1);
    match &q.domain_name {
        DomainName::Wire(v) => assert_eq!(v, &name_wire()),
        DomainName::Text(_) => panic!("parsed names stay in wire form"),
    }
    assert!(form.dns_answers.is_none());
}

#[test]
fn parse_short_datagram_recovers_empty() {
    let datagram = vec![0x04u8, 0xD2, 0x01];
    let parsed = DnsMessage::parse(&datagram);
    let form = match parsed {
        DnsMessage::DnsRequest(form) => form,
        DnsMessage::DnsResponse(_) => panic!("parse must yield a request"),
    };
    assert_eq!(form.dns_header.id, 0);
    assert_eq!(form.dns_header.qr, 0);
    assert_eq!(form.dns_header.qdcount, 0);
    assert_eq!(form.dns_header.ancount, 0);
    assert!(form.dns_questions.is_empty());
    assert!(form.dns_answers.is_none());
}

#[test]
fn parse_truncated_question_recovers_empty() {
    // header promises one question but the name is cut short
    let mut datagram =
        vec![0x04u8, 0xD2, 0x01, 0x00, 0x00, 0x01, 0x00, 0x00, 0x00, 0x00, 0x00, 0x00];
    datagram.extend_from_slice(&[12, b'c', b'o']);
    let parsed = DnsMessage::parse(&datagram);
    let form = match parsed {
        DnsMessage::DnsRequest(form) => form,
        DnsMessage::DnsResponse(_) => panic!("parse must yield a request"),
    };
    assert_eq!(form.dns_header.id, 0);
    assert_eq!(form.dns_header.qdcount, 0);
    assert!(form.dns_questions.is_empty());
}

#[test]
fn parse_request_with_answer_section() {
    let mut datagram =
        vec![0x04u8, 0xD2, 0x81, 0x00, 0x00, 0x01, 0x00, 0x01, 0x00, 0x00, 0x00, 0x00];
    datagram.extend_from_slice(&name_wire());
    datagram.extend_from_slice(&[0x00, 0x01, 0x00, 0x01]);
    datagram.extend_from_slice(&name_wire());
    datagram.extend_from_slice(&[
        0x00, 0x01, 0x00, 0x01, 0x00, 0x00, 0x00, 0x3C, 0x00, 0x04, 0x08, 0x08, 0x08, 0x08,
    ]);
    let parsed = DnsMessage::parse(&datagram);
    let form = match parsed {
        DnsMessage::DnsRequest(form) => form,
        DnsMessage::DnsResponse(_) => panic!("parse must yield a request"),
    };
    let answers = form.dns_answers.expect("the answer section must parse");
    assert_eq!(answers.len(), 1);
    let a = &answers[0];
    assert_eq!(a.record_type, 1);
    assert_eq!(a.class, 1);
    assert_eq!(a.ttl, 60);
    assert_eq!(a.rdlength, 4);
    assert_eq!(a.rdata, RecordData::IpAddress([8, 8, 8, 8]));
}

#[test]
fn parse_compressed_second_question() {
    // S3-style: the second question's name is a pointer to offset 12
    let mut datagram =
        vec![0x04u8, 0xD2, 0x01, 0x00, 0x00, 0x02, 0x00, 0x00, 0x00, 0x00, 0x00, 0x00];
    datagram.extend_from_slice(&name_wire());
    datagram.extend_from_slice(&[0x00, 0x01, 0x00, 0x01]);
    datagram.extend_from_slice(&[0xC0, 0x0C, 0x00, 0x01, 0x00, 0x01]);
    let parsed = DnsMessage::parse(&datagram);
    let form = match parsed {
        DnsMessage::DnsRequest(form) => form,
        DnsMessage::DnsResponse(_) => panic!("parse must yield a request"),
    };
    assert_eq!(form.dns_questions.len(), 2);
    for q in &form.dns_questions {
        match &q.domain_name {
            DomainName::Wire(v) => assert_eq!(v, &name_wire()),
            DomainName::Text(_) => panic!("parsed names stay in wire form"),
        }
    }
}

#[test]
fn serialize_request_message() {
    let form = DnsMessageForm {
        dns_header: DnsHeader {
            id: 7,
            qr: 0,
            opcode: 0,
            aa: 0,
            tc: 0,
            rd: 1,
            ra: 0,
            z: 0,
            rcode: 0,
            qdcount: 1,
            ancount: 0,
            nscount: 0,
            arcount: 0,
        },
        dns_questions: vec![DnsQuestion {
            domain_name: DomainName::Wire(name_wire()),
            query_type: 1,
            query_class: 1,
        }],
        dns_answers: None,
    };
    let bytes = DnsMessage::DnsRequest(form).serialize();
    let mut expected = vec![0x00u8, 0x07, 0x01, 0x00, 0x00, 0x01, 0x00, 0x00, 0x00, 0x00, 0x00, 0x00];
    expected.extend_from_slice(&name_wire());
    expected.extend_from_slice(&[0x00, 0x01, 0x00, 0x01]);
    assert_eq!(bytes, expected);
}

#[test]
fn parse_no_questions_with_trailing_bytes() {
    // qdcount 0: the question section is empty and the answer section
    // parses zero records from the trailing byte
    let datagram =
        vec![0x04u8, 0xD2, 0x01, 0x00, 0x00, 0x00, 0x00, 0x00, 0x00, 0x00, 0x00, 0x00, 0xFF];
    let parsed = DnsMessage::parse(&datagram);
    let form = match parsed {
        DnsMessage::DnsRequest(form) => form,
        DnsMessage::DnsResponse(_) => panic!("parse must yield a request"),
    };
    assert_eq!(form.dns_header.id, 1234);
    assert!(form.dns_questions.is_empty());
    assert_eq!(form.dns_answers.map(|a| a.len()), Some(0));
}

#[test]
fn parse_answer_with_wrong_rdlength_fails() {
    let mut datagram =
        vec![0x04u8, 0xD2, 0x81, 0x00, 0x00, 0x01, 0x00, 0x01, 0x00, 0x00, 0x00, 0x00];
    datagram.extend_from_slice(&name_wire());
    datagram.extend_from_slice(&[0x00, 0x01, 0x00, 0x01]);
    datagram.extend_from_slice(&name_wire());
    // rdlength 6 cannot carry an IPv4 address
    datagram.extend_from_slice(&[
        0x00, 0x01, 0x00, 0x01, 0x00, 0x00, 0x00, 0x3C, 0x00, 0x06, 0x08, 0x08, 0x08, 0x08, 0x08,
        0x08,
    ]);
    let parsed = DnsMessage::parse(&datagram);
    let form = match parsed {
        DnsMessage::DnsRequest(form) => form,
        DnsMessage::DnsResponse(_) => panic!("parse must yield a request"),
    };
    assert_eq!(form.dns_questions.len(), 1);
    assert!(form.dns_answers.is_none());
}

#[test]
fn empty_form_is_zeroed() {
    let form = DnsMessageForm::empty();
    assert_eq!(form.dns_header.id, 0);
    assert_eq!(form.dns_header.qdcount, 0);
    assert!(form.dns_questions.is_empty());
    assert!(form.dns_answers.is_none());
}
