use crate::dns_server::dns_answer::{spec_answer_bytes, AnswerModel, DnsAnswer, RecordData};
use crate::dns_server::dns_header::{
    header_wf, spec_header_bytes, spec_parse_header, spec_u16, spec_u32, DnsHeader,
};
use crate::dns_server::dns_question::{spec_question_bytes, DnsQuestion, QuestionModel};
use crate::dns_server::domain_name::{
    lemma_decode_cursor_bounds, lemma_tail_from_range, spec_decode_name, tail_from, DomainName,
};
use vstd::prelude::*;
use vstd::slice::slice_subrange;

verus! {

/// The byte length of the fixed message header.
pub const HEADER_LENGTH: usize = 12;

/// Spec-level model of a message body: header, questions, and an answer
/// section that may be absent.
pub ghost struct FormModel {
    pub dns_header: DnsHeader,
    pub dns_questions: Seq<QuestionModel>,
    pub dns_answers: Option<Seq<AnswerModel>>,
}

/// The body shared by requests and responses.
#[derive(Debug)]
pub struct DnsMessageForm {
    pub dns_header: DnsHeader,
    pub dns_questions: Vec<DnsQuestion>,
    pub dns_answers: Option<Vec<DnsAnswer>>,
}

impl View for DnsMessageForm {
    type V = FormModel;

    open spec fn view(&self) -> FormModel {
        FormModel {
            dns_header: self.dns_header,
            dns_questions: self.dns_questions@.map_values(|q: DnsQuestion| q@),
            dns_answers: match self.dns_answers {
                Some(v) => Some(v@.map_values(|a: DnsAnswer| a@)),
                None => None,
            },
        }
    }
}

/// A whole message, tagged as inbound request or outbound response.
#[derive(Debug)]
pub enum DnsMessage {
    DnsRequest(DnsMessageForm),
    DnsResponse(DnsMessageForm),
}

/// The error for trying to send a request form as a reply.
#[derive(Debug, Clone, Copy, PartialEq, Eq, Structural)]
pub struct EncodeMisuse;

/// The recovery form substituted for a malformed datagram: an all-zero
/// header, no questions, no answers.
pub open spec fn spec_empty_form() -> FormModel {
    FormModel {
        dns_header: DnsHeader {
            id: 0,
            qr: 0,
            opcode: 0,
            aa: 0,
            tc: 0,
            rd: 0,
            ra: 0,
            z: 0,
            rcode: 0,
            qdcount: 0,
            ancount: 0,
            nscount: 0,
            arcount: 0,
        },
        dns_questions: Seq::empty(),
        dns_answers: None,
    }
}

/// One question parsed at `pos`: its name, then two big-endian fields.
pub open spec fn spec_parse_question(d: Seq<u8>, pos: int) -> Option<(QuestionModel, int)> {
    match spec_decode_name(d, pos) {
        Some(nr) => {
            let p = nr.1;
            if p + 4 <= d.len() {
                Some(
                    (
                        QuestionModel {
                            name: nr.0,
                            query_type: spec_u16(d[p], d[p + 1]),
                            query_class: spec_u16(d[p + 2], d[p + 3]),
                        },
                        p + 4,
                    ),
                )
            } else {
                None
            }
        },
        None => None,
    }
}

/// `n` questions parsed in sequence from `pos`.
pub open spec fn spec_parse_questions(d: Seq<u8>, pos: int, n: nat) -> Option<
    (Seq<QuestionModel>, int),
>
    decreases n,
{
    if n == 0 {
        Some((Seq::empty(), pos))
    } else {
        match spec_parse_question(d, pos) {
            Some(qp) => match spec_parse_questions(d, qp.1, (n - 1) as nat) {
                Some(rest) => Some((seq![qp.0] + rest.0, rest.1)),
                None => None,
            },
            None => None,
        }
    }
}

/// One A record parsed at `pos`: name, four big-endian fields, and a
/// four-byte payload whose declared length must be 4.
pub open spec fn spec_parse_answer(d: Seq<u8>, pos: int) -> Option<(AnswerModel, int)> {
    match spec_decode_name(d, pos) {
        Some(nr) => {
            let p = nr.1;
            if p + 10 <= d.len() {
                let rdlength = spec_u16(d[p + 8], d[p + 9]);
                if rdlength == 4 && p + 14 <= d.len() {
                    Some(
                        (
                            AnswerModel {
                                name: nr.0,
                                record_type: spec_u16(d[p], d[p + 1]),
                                class: spec_u16(d[p + 2], d[p + 3]),
                                ttl: spec_u32(d[p + 4], d[p + 5], d[p + 6], d[p + 7]),
                                rdlength: rdlength,
                                rdata: d.subrange(p + 10, p + 14),
                            },
                            p + 14,
                        ),
                    )
                } else {
                    None
                }
            } else {
                None
            }
        },
        None => None,
    }
}

/// `n` records parsed in sequence from `pos`.
pub open spec fn spec_parse_answers(d: Seq<u8>, pos: int, n: nat) -> Option<
    (Seq<AnswerModel>, int),
>
    decreases n,
{
    if n == 0 {
        Some((Seq::empty(), pos))
    } else {
        match spec_parse_answer(d, pos) {
            Some(ap) => match spec_parse_answers(d, ap.1, (n - 1) as nat) {
                Some(rest) => Some((seq![ap.0] + rest.0, rest.1)),
                None => None,
            },
            None => None,
        }
    }
}

/// The request form every inbound datagram yields: the header, `qdcount`
/// questions from byte 12 on, and an answer section only when bytes remain
/// past the questions and `qdcount` records parse from them. A malformed
/// header or question section recovers as the empty form.
pub open spec fn spec_parse_request(d: Seq<u8>) -> FormModel {
    match spec_parse_header(d) {
        None => spec_empty_form(),
        Some(h) => match spec_parse_questions(d, 12, h.qdcount as nat) {
            None => spec_empty_form(),
            Some(qs) => FormModel {
                dns_header: h,
                dns_questions: qs.0,
                dns_answers: if qs.1 >= d.len() {
                    None
                } else {
                    match spec_parse_answers(d, qs.1, h.qdcount as nat) {
                        Some(ans) => Some(ans.0),
                        None => None,
                    }
                },
            },
        },
    }
}

/// Wire bytes of a question section, in order.
pub open spec fn spec_questions_bytes(qs: Seq<QuestionModel>) -> Seq<u8>
    decreases qs.len(),
{
    if qs.len() == 0 {
        Seq::empty()
    } else {
        spec_question_bytes(qs[0]) + spec_questions_bytes(qs.skip(1))
    }
}

/// Wire bytes of an answer section, in order.
pub open spec fn spec_answers_bytes(ans: Seq<AnswerModel>) -> Seq<u8>
    decreases ans.len(),
{
    if ans.len() == 0 {
        Seq::empty()
    } else {
        spec_answer_bytes(ans[0]) + spec_answers_bytes(ans.skip(1))
    }
}

/// Wire bytes of a query: header, then the question section.
pub open spec fn spec_query_bytes(f: FormModel) -> Seq<u8> {
    spec_header_bytes(f.dns_header) + spec_questions_bytes(f.dns_questions)
}

/// Wire bytes of a reply: header, questions, then the answer section (an
/// absent section serializes as no bytes).
pub open spec fn spec_response_bytes(f: FormModel) -> Seq<u8> {
    spec_query_bytes(f) + (match f.dns_answers {
        Some(ans) => spec_answers_bytes(ans),
        None => Seq::empty(),
    })
}

/// 2 to the `k`.
pub open spec fn two_pow(k: nat) -> nat
    decreases k,
{
    if k == 0 {
        1
    } else {
        2 * two_pow((k - 1) as nat)
    }
}

/// The bits of `byte` from `start` (most significant, 0) up to `end`
/// (exclusive), right-aligned; or nothing when the range is empty or runs
/// past the byte.
pub open spec fn spec_slice_byte(byte: u8, start: u32, end: u32) -> Option<u8> {
    if start >= end || end > 8 {
        None
    } else {
        Some(((byte as nat / two_pow((8 - end) as nat)) % two_pow((end - start) as nat)) as u8)
    }
}

fn two_pow_exec(k: u32) -> (r: u16)
    requires
        k <= 8,
    ensures
        r as nat == two_pow(k as nat),
        1 <= r <= 256,
        k < 8 ==> r <= 128,
{
    proof {
        assert(two_pow(0) == 1);
        assert(two_pow(1) == 2);
        assert(two_pow(2) == 4);
        assert(two_pow(3) == 8);
        assert(two_pow(4) == 16);
        assert(two_pow(5) == 32);
        assert(two_pow(6) == 64);
        assert(two_pow(7) == 128);
        assert(two_pow(8) == 256);
    }
    match k {
        0 => 1,
        1 => 2,
        2 => 4,
        3 => 8,
        4 => 16,
        5 => 32,
        6 => 64,
        7 => 128,
        _ => 256,
    }
}

impl DnsMessage {
    /// The body form, whichever arm carries it.
    pub open spec fn spec_form(&self) -> FormModel {
        match self {
            DnsMessage::DnsRequest(f) => f@,
            DnsMessage::DnsResponse(f) => f@,
        }
    }

    /// The 16-bit value at the front of `bytes`, big-endian.
    pub fn to_u16(bytes: &[u8]) -> (r: u16)
        requires
            bytes@.len() >= 2,
        ensures
            r == spec_u16(bytes@[0], bytes@[1]),
    {
        (bytes[0] as u16) * 256 + (bytes[1] as u16)
    }

    /// The 32-bit value at the front of `bytes`, big-endian.
    pub fn to_u32(bytes: &[u8]) -> (r: u32)
        requires
            bytes@.len() >= 4,
        ensures
            r == spec_u32(bytes@[0], bytes@[1], bytes@[2], bytes@[3]),
    {
        (bytes[0] as u32) * 0x1000000 + (bytes[1] as u32) * 0x10000 + (bytes[2] as u32) * 256 + (
        bytes[3] as u32)
    }

    /// Extract the bit range `[start, end)` of `byte`, most significant bit
    /// first.
    pub fn slice_byte(byte: u8, start: u32, end: u32) -> (r: Option<u8>)
        ensures
            r == spec_slice_byte(byte, start, end),
    {
        if start >= end || end > 8 {
            return None;
        }
        let shift_down = two_pow_exec(8 - end);
        let width = two_pow_exec(end - start);
        let sd = shift_down as u8;
        proof {
            assert(sd == shift_down);
            assert(sd >= 1);
        }
        let q = (byte / sd) as u16;
        proof {
            vstd::arithmetic::div_mod::lemma_mod_bound(q as int, width as int);
        }
        Some((q % width) as u8)
    }

    /// Read one big-endian 16-bit field at `pos`, advancing the cursor.
    pub fn consume_2bytes_fields(bytes: &Vec<u8>, pos: usize) -> (r: Option<(u16, usize)>)
        ensures
            match r {
                Some(p) => pos + 2 <= bytes@.len() && p.0 == spec_u16(
                    bytes@[pos as int],
                    bytes@[pos as int + 1],
                ) && p.1 == pos + 2,
                None => pos + 2 > bytes@.len(),
            },
    {
        if bytes.len() < 2 || pos > bytes.len() - 2 {
            return None;
        }
        let v = Self::to_u16(slice_subrange(bytes.as_slice(), pos, pos + 2));
        Some((v, pos + 2))
    }

    /// Read one big-endian 32-bit field at `pos`, advancing the cursor.
    pub fn consume_4bytes_fields(bytes: &Vec<u8>, pos: usize) -> (r: Option<(u32, usize)>)
        ensures
            match r {
                Some(p) => pos + 4 <= bytes@.len() && p.0 == spec_u32(
                    bytes@[pos as int],
                    bytes@[pos as int + 1],
                    bytes@[pos as int + 2],
                    bytes@[pos as int + 3],
                ) && p.1 == pos + 4,
                None => pos + 4 > bytes@.len(),
            },
    {
        if bytes.len() < 4 || pos > bytes.len() - 4 {
            return None;
        }
        let v = Self::to_u32(slice_subrange(bytes.as_slice(), pos, pos + 4));
        Some((v, pos + 4))
    }

    /// Parse the fixed header from the front of a datagram.
    pub fn parse_header(bytes: &[u8]) -> (r: Option<DnsHeader>)
        ensures
            r == spec_parse_header(bytes@),
            r is Some ==> header_wf(r->Some_0),
    {
        if bytes.len() < 12 {
            return None;
        }
        let h = DnsHeader {
            id: Self::to_u16(slice_subrange(bytes, 0, 2)),
            qr: bytes[2] / 128,
            opcode: (bytes[2] / 8) % 16,
            aa: (bytes[2] / 4) % 2,
            tc: (bytes[2] / 2) % 2,
            rd: bytes[2] % 2,
            ra: bytes[3] / 128,
            z: (bytes[3] / 16) % 8,
            rcode: bytes[3] % 16,
            qdcount: Self::to_u16(slice_subrange(bytes, 4, 6)),
            ancount: Self::to_u16(slice_subrange(bytes, 6, 8)),
            nscount: Self::to_u16(slice_subrange(bytes, 8, 10)),
            arcount: Self::to_u16(slice_subrange(bytes, 10, 12)),
        };
        proof {
            crate::dns_server::dns_header::lemma_parsed_header_wf(bytes@);
        }
        Some(h)
    }

    /// Decode the (possibly compressed) domain name at `pos`, returning its
    /// uncompressed wire bytes and the cursor just past it.
    pub fn decode_domain(bytes: &Vec<u8>, pos: usize) -> (r: Option<(Vec<u8>, usize)>)
        ensures
            match r {
                Some(p) => spec_decode_name(bytes@, pos as int) == Some((p.0@, p.1 as int)),
                None => spec_decode_name(bytes@, pos as int) is None,
            },
    {
        let mut acc: Vec<u8> = Vec::new();
        let mut cur: usize = pos;
        proof {
            assert(Seq::<u8>::empty() + seq![0u8] =~= seq![0u8]);
        }
        loop
            invariant
                ({
                    let outer = spec_decode_name(bytes@, pos as int);
                    let inner = spec_decode_name(bytes@, cur as int);
                    match inner {
                        Some(p) => outer == Some((acc@ + p.0, p.1)),
                        None => outer is None,
                    }
                }),
            decreases bytes@.len() - cur,
        {
            if cur >= bytes.len() {
                return None;
            }
            let b = bytes[cur];
            if b == 0 {
                acc.push(0);
                proof {
                    let ghost prev = acc@.drop_last();
                    assert(acc@ =~= prev + seq![0u8]);
                }
                return Some((acc, cur + 1));
            } else if b < 64 {
                let l = b as usize;
                if l > bytes.len() - cur - 1 {
                    return None;
                }
                let ghost acc_prev = acc@;
                acc.push(b);
                crate::dns_server::domain_name::push_range(
                    &mut acc,
                    bytes.as_slice(),
                    cur + 1,
                    cur + 1 + l,
                );
                proof {
                    let inner_next = spec_decode_name(bytes@, cur + 1 + l);
                    if inner_next is Some {
                        let p = inner_next->Some_0;
                        assert(acc_prev + (seq![b] + bytes@.subrange(cur as int + 1, cur + 1 + l)
                            + p.0) =~= (acc_prev.push(b) + bytes@.subrange(
                            cur as int + 1,
                            cur + 1 + l,
                        )) + p.0);
                    }
                }
                cur = cur + 1 + l;
            } else if b >= 192 {
                if cur + 1 >= bytes.len() {
                    return None;
                }
                let b2 = bytes[cur + 1];
                let off = (b as usize - 192) * 256 + (b2 as usize);
                if off >= cur {
                    return None;
                }
                let ghost acc_prev = acc@;
                let mut j: usize = off;
                while j < bytes.len() && bytes[j] != 0
                    invariant
                        off <= j <= bytes@.len(),
                        acc@ == acc_prev + bytes@.subrange(off as int, j as int),
                        forall|i: int| off <= i < j ==> bytes@[i] != 0,
                    decreases bytes@.len() - j,
                {
                    acc.push(bytes[j]);
                    proof {
                        assert(acc_prev + bytes@.subrange(off as int, j + 1) =~= (acc_prev
                            + bytes@.subrange(off as int, j as int)).push(bytes@[j as int]));
                    }
                    j += 1;
                }
                acc.push(0);
                proof {
                    lemma_tail_from_range(bytes@, off as int, j as int);
                    assert(acc@ =~= acc_prev + (tail_from(bytes@, off as int) + seq![0u8]));
                }
                return Some((acc, cur + 2));
            } else {
                return None;
            }
        }
    }

    /// Parse `num_of_question` questions starting right after the header,
    /// returning them with the byte count they consumed.
    pub fn parse_question(bytes: &Vec<u8>, num_of_question: u16) -> (r: Option<
        (Vec<DnsQuestion>, usize),
    >)
        ensures
            match r {
                Some(p) => spec_parse_questions(bytes@, 12, num_of_question as nat) == Some(
                    (p.0@.map_values(|q: DnsQuestion| q@), 12 + p.1),
                ),
                None => spec_parse_questions(bytes@, 12, num_of_question as nat) is None,
            },
    {
        let mut dns_questions: Vec<DnsQuestion> = Vec::new();
        let mut cur: usize = HEADER_LENGTH;
        let mut i: u16 = 0;
        proof {
            assert(dns_questions@.map_values(|q: DnsQuestion| q@) =~= Seq::<QuestionModel>::empty());
        }
        while i < num_of_question
            invariant
                i <= num_of_question,
                cur >= 12,
                ({
                    let outer = spec_parse_questions(bytes@, 12, num_of_question as nat);
                    let inner = spec_parse_questions(
                        bytes@,
                        cur as int,
                        (num_of_question - i) as nat,
                    );
                    match inner {
                        Some(p) => outer == Some(
                            (dns_questions@.map_values(|q: DnsQuestion| q@) + p.0, p.1),
                        ),
                        None => outer is None,
                    }
                }),
            decreases num_of_question - i,
        {
            let ghost qs_prev = dns_questions@.map_values(|q: DnsQuestion| q@);
            let name = match Self::decode_domain(bytes, cur) {
                Some(p) => p,
                None => {
                    return None;
                },
            };
            proof {
                lemma_decode_cursor_bounds(bytes@, cur as int);
            }
            let (query_type, p2) = match Self::consume_2bytes_fields(bytes, name.1) {
                Some(p) => p,
                None => {
                    return None;
                },
            };
            let (query_class, p3) = match Self::consume_2bytes_fields(bytes, p2) {
                Some(p) => p,
                None => {
                    return None;
                },
            };
            let q = DnsQuestion {
                domain_name: DomainName::Wire(name.0),
                query_type,
                query_class,
            };
            proof {
                let qm = spec_parse_question(bytes@, cur as int)->Some_0;
                assert(q@ == qm.0);
            }
            dns_questions.push(q);
            proof {
                let qm = spec_parse_question(bytes@, cur as int)->Some_0;
                assert(dns_questions@.map_values(|q: DnsQuestion| q@) =~= qs_prev.push(qm.0));
                let inner_next = spec_parse_questions(
                    bytes@,
                    qm.1,
                    (num_of_question - i - 1) as nat,
                );
                if inner_next is Some {
                    let p = inner_next->Some_0;
                    assert(qs_prev + (seq![qm.0] + p.0) =~= qs_prev.push(qm.0) + p.0);
                }
            }
            cur = p3;
            i = i + 1;
        }
        proof {
            let inner = spec_parse_questions(bytes@, cur as int, 0);
            assert(dns_questions@.map_values(|q: DnsQuestion| q@) + Seq::<QuestionModel>::empty()
                =~= dns_questions@.map_values(|q: DnsQuestion| q@));
        }
        Some((dns_questions, cur - 12))
    }

    /// Parse `num_of_question` A records from the bytes after the question
    /// section; absent trailing bytes or any malformed record yields
    /// nothing.
    pub fn parse_answer(bytes: &Vec<u8>, num_of_question: u16, consumed_amount: usize) -> (r:
        Option<Vec<DnsAnswer>>)
        ensures
            ({
                let start = 12 + consumed_amount as int;
                match r {
                    Some(v) => start < bytes@.len() && spec_parse_answers(
                        bytes@,
                        start,
                        num_of_question as nat,
                    ) is Some && v@.map_values(|a: DnsAnswer| a@) == spec_parse_answers(
                        bytes@,
                        start,
                        num_of_question as nat,
                    )->Some_0.0,
                    None => start >= bytes@.len() || spec_parse_answers(
                        bytes@,
                        start,
                        num_of_question as nat,
                    ) is None,
                }
            }),
    {
        if bytes.len() < 12 || consumed_amount >= bytes.len() - 12 {
            return None;
        }
        let start: usize = HEADER_LENGTH + consumed_amount;
        let mut dns_answers: Vec<DnsAnswer> = Vec::new();
        let mut cur: usize = start;
        let mut i: u16 = 0;
        proof {
            assert(dns_answers@.map_values(|a: DnsAnswer| a@) =~= Seq::<AnswerModel>::empty());
        }
        while i < num_of_question
            invariant
                i <= num_of_question,
                start == 12 + consumed_amount,
                start < bytes@.len(),
                ({
                    let outer = spec_parse_answers(bytes@, start as int, num_of_question as nat);
                    let inner = spec_parse_answers(
                        bytes@,
                        cur as int,
                        (num_of_question - i) as nat,
                    );
                    match inner {
                        Some(p) => outer == Some(
                            (dns_answers@.map_values(|a: DnsAnswer| a@) + p.0, p.1),
                        ),
                        None => outer is None,
                    }
                }),
            decreases num_of_question - i,
        {
            let ghost as_prev = dns_answers@.map_values(|a: DnsAnswer| a@);
            let name = match Self::decode_domain(bytes, cur) {
                Some(p) => p,
                None => {
                    return None;
                },
            };
            let (record_type, p2) = match Self::consume_2bytes_fields(bytes, name.1) {
                Some(p) => p,
                None => {
                    return None;
                },
            };
            let (class, p3) = match Self::consume_2bytes_fields(bytes, p2) {
                Some(p) => p,
                None => {
                    return None;
                },
            };
            let (ttl, p4) = match Self::consume_4bytes_fields(bytes, p3) {
                Some(p) => p,
                None => {
                    return None;
                },
            };
            let (rdlength, p5) = match Self::consume_2bytes_fields(bytes, p4) {
                Some(p) => p,
                None => {
                    return None;
                },
            };
            if rdlength != 4 {
                return None;
            }
            if bytes.len() < 4 || p5 > bytes.len() - 4 {
                return None;
            }
            let octets: [u8; 4] = [bytes[p5], bytes[p5 + 1], bytes[p5 + 2], bytes[p5 + 3]];
            let a = DnsAnswer {
                domain_name: DomainName::Wire(name.0),
                record_type,
                class,
                ttl,
                rdlength,
                rdata: RecordData::IpAddress(octets),
            };
            proof {
                let am = spec_parse_answer(bytes@, cur as int)->Some_0;
                assert(octets@ =~= bytes@.subrange(p5 as int, p5 as int + 4));
                assert(a@ == am.0);
            }
            dns_answers.push(a);
            proof {
                let am = spec_parse_answer(bytes@, cur as int)->Some_0;
                assert(dns_answers@.map_values(|a: DnsAnswer| a@) =~= as_prev.push(am.0));
                let inner_next = spec_parse_answers(
                    bytes@,
                    am.1,
                    (num_of_question - i - 1) as nat,
                );
                if inner_next is Some {
                    let p = inner_next->Some_0;
                    assert(as_prev + (seq![am.0] + p.0) =~= as_prev.push(am.0) + p.0);
                }
            }
            cur = p5 + 4;
            i = i + 1;
        }
        proof {
            assert(dns_answers@.map_values(|a: DnsAnswer| a@) + Seq::<AnswerModel>::empty()
                =~= dns_answers@.map_values(|a: DnsAnswer| a@));
        }
        Some(dns_answers)
    }

    /// Interpret a whole inbound datagram as a request; malformed header or
    /// question bytes recover as the empty form. The header always comes out
    /// with in-range subfields.
    pub fn parse(bytes: &Vec<u8>) -> (m: DnsMessage)
        ensures
            m matches DnsMessage::DnsRequest(f) && f@ == spec_parse_request(bytes@),
            header_wf(m.spec_form().dns_header),
    {
        let dns_header = match Self::parse_header(bytes.as_slice()) {
            Some(h) => h,
            None => {
                return DnsMessage::DnsRequest(DnsMessageForm::empty());
            },
        };
        let (dns_questions, consumed_amount) = match Self::parse_question(
            bytes,
            dns_header.qdcount,
        ) {
            Some(p) => p,
            None => {
                return DnsMessage::DnsRequest(DnsMessageForm::empty());
            },
        };
        let dns_answers = Self::parse_answer(bytes, dns_header.qdcount, consumed_amount);
        DnsMessage::DnsRequest(
            DnsMessageForm { dns_header, dns_questions, dns_answers },
        )
    }

    /// Serialize either arm: a request as header plus questions, a response
    /// with its answer section appended (an absent section emits no bytes).
    pub fn serialize(&self) -> (r: Vec<u8>)
        requires
            header_wf(self.spec_form().dns_header),
        ensures
            self is DnsRequest ==> r@ == spec_query_bytes(self.spec_form()),
            self is DnsResponse ==> r@ == spec_response_bytes(self.spec_form()),
    {
        match self {
            DnsMessage::DnsRequest(form) => form.serialize_query(),
            DnsMessage::DnsResponse(form) => {
                let mut buf = form.serialize_query();
                let mut tail = match &form.dns_answers {
                    Some(ans) => serialize_answers(ans),
                    None => Vec::new(),
                };
                buf.append(&mut tail);
                proof {
                    assert(buf@ =~= spec_response_bytes(form@));
                }
                buf
            },
        }
    }

    /// Wire bytes for an outbound reply: total on the response form, an
    /// `EncodeMisuse` error on the request form.
    pub fn serialize_response(&self) -> (r: Result<Vec<u8>, EncodeMisuse>)
        requires
            header_wf(self.spec_form().dns_header),
        ensures
            match r {
                Ok(bytes) => self is DnsResponse && bytes@ == spec_response_bytes(self.spec_form()),
                Err(_) => self is DnsRequest,
            },
    {
        match self {
            DnsMessage::DnsRequest(_) => Err(EncodeMisuse),
            DnsMessage::DnsResponse(_) => Ok(self.serialize()),
        }
    }
}

impl DnsMessageForm {
    /// The recovery form for malformed datagrams.
    pub fn empty() -> (f: DnsMessageForm)
        ensures
            f@ == spec_empty_form(),
    {
        let f = DnsMessageForm {
            dns_header: DnsHeader {
                id: 0,
                qr: 0,
                opcode: 0,
                aa: 0,
                tc: 0,
                rd: 0,
                ra: 0,
                z: 0,
                rcode: 0,
                qdcount: 0,
                ancount: 0,
                nscount: 0,
                arcount: 0,
            },
            dns_questions: Vec::new(),
            dns_answers: None,
        };
        proof {
            assert(f@.dns_questions =~= Seq::<QuestionModel>::empty());
        }
        f
    }

    /// Serialize the header and question section, the layout of an
    /// outbound query.
    pub fn serialize_query(&self) -> (r: Vec<u8>)
        requires
            header_wf(self.dns_header),
        ensures
            r@ == spec_query_bytes(self@),
    {
        let mut buf = self.dns_header.serialize();
        let mut qs = serialize_questions(&self.dns_questions);
        buf.append(&mut qs);
        buf
    }
}

/// Serialize a question section in order.
pub fn serialize_questions(questions: &Vec<DnsQuestion>) -> (r: Vec<u8>)
    ensures
        r@ == spec_questions_bytes(questions@.map_values(|q: DnsQuestion| q@)),
{
    let ghost model = questions@.map_values(|q: DnsQuestion| q@);
    let mut out: Vec<u8> = Vec::new();
    let mut i: usize = 0;
    proof {
        assert(model.skip(0) =~= model);
        assert(out@ + spec_questions_bytes(model) =~= spec_questions_bytes(model));
    }
    while i < questions.len()
        invariant
            i <= questions@.len(),
            model == questions@.map_values(|q: DnsQuestion| q@),
            spec_questions_bytes(model) == out@ + spec_questions_bytes(model.skip(i as int)),
        decreases questions@.len() - i,
    {
        let ghost out_prev = out@;
        let mut qb = questions[i].serialize();
        out.append(&mut qb);
        proof {
            assert(model.skip(i as int)[0] == model[i as int]);
            assert(model.skip(i as int).skip(1) =~= model.skip(i + 1));
            assert(out_prev + (spec_question_bytes(model[i as int]) + spec_questions_bytes(
                model.skip(i + 1),
            )) =~= (out_prev + spec_question_bytes(model[i as int])) + spec_questions_bytes(
                model.skip(i + 1),
            ));
        }
        i = i + 1;
    }
    proof {
        assert(model.skip(questions@.len() as int) =~= Seq::<QuestionModel>::empty());
        assert(out@ + Seq::<u8>::empty() =~= out@);
    }
    out
}

/// Serialize an answer section in order.
pub fn serialize_answers(answers: &Vec<DnsAnswer>) -> (r: Vec<u8>)
    ensures
        r@ == spec_answers_bytes(answers@.map_values(|a: DnsAnswer| a@)),
{
    let ghost model = answers@.map_values(|a: DnsAnswer| a@);
    let mut out: Vec<u8> = Vec::new();
    let mut i: usize = 0;
    proof {
        assert(model.skip(0) =~= model);
        assert(out@ + spec_answers_bytes(model) =~= spec_answers_bytes(model));
    }
    while i < answers.len()
        invariant
            i <= answers@.len(),
            model == answers@.map_values(|a: DnsAnswer| a@),
            spec_answers_bytes(model) == out@ + spec_answers_bytes(model.skip(i as int)),
        decreases answers@.len() - i,
    {
        let ghost out_prev = out@;
        let mut ab = answers[i].serialize();
        out.append(&mut ab);
        proof {
            assert(model.skip(i as int)[0] == model[i as int]);
            assert(model.skip(i as int).skip(1) =~= model.skip(i + 1));
            assert(out_prev + (spec_answer_bytes(model[i as int]) + spec_answers_bytes(
                model.skip(i + 1),
            )) =~= (out_prev + spec_answer_bytes(model[i as int])) + spec_answers_bytes(
                model.skip(i + 1),
            ));
        }
        i = i + 1;
    }
    proof {
        assert(model.skip(answers@.len() as int) =~= Seq::<AnswerModel>::empty());
        assert(out@ + Seq::<u8>::empty() =~= out@);
    }
    out
}

} // verus!
