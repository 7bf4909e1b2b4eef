pub mod dns_answer;
pub mod dns_header;
pub mod dns_message;
pub mod dns_question;
pub mod domain_name;

use crate::dns_server::dns_answer::{AnswerModel, DnsAnswer};
use crate::dns_server::dns_header::{
    header_wf, lemma_header_in_datagram, spec_parse_header, DnsHeader,
};
use crate::dns_server::dns_message::{
    spec_parse_request, spec_query_bytes, spec_questions_bytes, DnsMessage, DnsMessageForm,
    FormModel,
};
use crate::dns_server::dns_question::DnsQuestion;
use vstd::prelude::*;

verus! {

/// The header of the reply to request form `f`: id, opcode and rd echoed,
/// qr set, rcode 0 exactly when the opcode is the standard query (else 4),
/// qdcount counting the echoed questions, ancount counting the answers the
/// reply actually carries, and every other field zero.
pub open spec fn spec_response_header(f: FormModel, num_answers: u16) -> DnsHeader {
    DnsHeader {
        id: f.dns_header.id,
        qr: 1,
        opcode: f.dns_header.opcode,
        aa: 0,
        tc: 0,
        rd: f.dns_header.rd,
        ra: 0,
        z: 0,
        rcode: if f.dns_header.opcode == 0 {
            0
        } else {
            4
        },
        qdcount: f.dns_questions.len() as u16,
        ancount: num_answers,
        nscount: 0,
        arcount: 0,
    }
}

/// The reply form for request `f` carrying `answers`: the reply header,
/// the request's questions echoed, and the answers as the answer section.
pub open spec fn spec_create_response(f: FormModel, answers: Seq<AnswerModel>) -> FormModel {
    FormModel {
        dns_header: spec_response_header(f, answers.len() as u16),
        dns_questions: f.dns_questions,
        dns_answers: Some(answers),
    }
}

/// Answers contributed by one upstream reply datagram: every answer it
/// parses to, in order, or nothing when it fails to parse or carries none.
pub open spec fn spec_reply_answers(d: Seq<u8>) -> Seq<AnswerModel> {
    match spec_parse_request(d).dns_answers {
        Some(ans) => ans,
        None => Seq::empty(),
    }
}

/// All answers aggregated over the upstream replies, in reply order.
pub open spec fn spec_aggregate_answers(ds: Seq<Seq<u8>>) -> Seq<AnswerModel>
    decreases ds.len(),
{
    if ds.len() == 0 {
        Seq::empty()
    } else {
        spec_reply_answers(ds[0]) + spec_aggregate_answers(ds.skip(1))
    }
}

/// One single-question request per question of `dns_request`, in question
/// order: each keeps the inbound header with qdcount set to 1 and carries
/// no answer section.
pub fn split_request(dns_request: &DnsMessageForm) -> (r: Vec<DnsMessage>)
    ensures
        r@.len() == dns_request@.dns_questions.len(),
        forall|i: int|
            0 <= i < r@.len() ==> ((#[trigger] r@[i]) matches DnsMessage::DnsRequest(f) && f@ == (
            FormModel {
                dns_header: (DnsHeader { qdcount: 1, ..dns_request.dns_header }),
                dns_questions: seq![dns_request@.dns_questions[i]],
                dns_answers: None,
            })),
{
    let mut out: Vec<DnsMessage> = Vec::new();
    let mut i: usize = 0;
    while i < dns_request.dns_questions.len()
        invariant
            i <= dns_request.dns_questions@.len(),
            out@.len() == i,
            forall|k: int|
                0 <= k < i ==> ((#[trigger] out@[k]) matches DnsMessage::DnsRequest(f) && f@ == (
                FormModel {
                    dns_header: (DnsHeader { qdcount: 1, ..dns_request.dns_header }),
                    dns_questions: seq![dns_request@.dns_questions[k]],
                    dns_answers: None,
                })),
        decreases dns_request.dns_questions@.len() - i,
    {
        let mut qs: Vec<DnsQuestion> = Vec::new();
        qs.push(dns_request.dns_questions[i].clone());
        proof {
            assert(qs@.map_values(|q: DnsQuestion| q@) =~= seq![
                dns_request@.dns_questions[i as int],
            ]);
        }
        let form = DnsMessageForm {
            dns_header: DnsHeader { qdcount: 1, ..dns_request.dns_header },
            dns_questions: qs,
            dns_answers: None,
        };
        out.push(DnsMessage::DnsRequest(form));
        i = i + 1;
    }
    out
}

/// Build the reply header for a parsed request with `num_answers`
/// aggregated answers.
pub fn create_response_header(request: &DnsMessageForm, num_answers: u16) -> (h: DnsHeader)
    requires
        request@.dns_questions.len() <= u16::MAX,
    ensures
        h == spec_response_header(request@, num_answers),
        header_wf(request@.dns_header) ==> header_wf(h),
{
    DnsHeader {
        id: request.dns_header.id,
        qr: 1,
        opcode: request.dns_header.opcode,
        aa: 0,
        tc: 0,
        rd: request.dns_header.rd,
        ra: 0,
        z: 0,
        rcode: if request.dns_header.opcode == 0 {
            0
        } else {
            4
        },
        qdcount: request.dns_questions.len() as u16,
        ancount: num_answers,
        nscount: 0,
        arcount: 0,
    }
}

/// Echo the request's questions, in order.
pub fn create_response_questions(request: &DnsMessageForm) -> (r: Vec<DnsQuestion>)
    ensures
        r@.map_values(|q: DnsQuestion| q@) == request@.dns_questions,
{
    let mut out: Vec<DnsQuestion> = Vec::new();
    let mut i: usize = 0;
    proof {
        assert(out@.map_values(|q: DnsQuestion| q@) =~= request@.dns_questions.take(0));
    }
    while i < request.dns_questions.len()
        invariant
            i <= request.dns_questions@.len(),
            out@.map_values(|q: DnsQuestion| q@) == request@.dns_questions.take(i as int),
        decreases request.dns_questions@.len() - i,
    {
        let ghost prev = out@.map_values(|q: DnsQuestion| q@);
        out.push(request.dns_questions[i].clone());
        proof {
            assert(out@.map_values(|q: DnsQuestion| q@) =~= prev.push(
                request@.dns_questions[i as int],
            ));
            assert(request@.dns_questions.take(i + 1) =~= request@.dns_questions.take(
                i as int,
            ).push(request@.dns_questions[i as int]));
        }
        i = i + 1;
    }
    proof {
        assert(request@.dns_questions.take(request.dns_questions@.len() as int)
            =~= request@.dns_questions);
    }
    out
}

/// Parse each upstream reply and append every answer it carries, in reply
/// order; a reply that fails to parse or has no answer section contributes
/// nothing.
pub fn create_response_answers(upstream_replies: &Vec<Vec<u8>>) -> (r: Vec<DnsAnswer>)
    ensures
        r@.map_values(|a: DnsAnswer| a@) == spec_aggregate_answers(
            upstream_replies@.map_values(|d: Vec<u8>| d@),
        ),
{
    let ghost model = upstream_replies@.map_values(|d: Vec<u8>| d@);
    let mut out: Vec<DnsAnswer> = Vec::new();
    let mut i: usize = 0;
    proof {
        assert(model.skip(0) =~= model);
        assert(out@.map_values(|a: DnsAnswer| a@) + spec_aggregate_answers(model)
            =~= spec_aggregate_answers(model));
    }
    while i < upstream_replies.len()
        invariant
            i <= upstream_replies@.len(),
            model == upstream_replies@.map_values(|d: Vec<u8>| d@),
            spec_aggregate_answers(model) == out@.map_values(|a: DnsAnswer| a@)
                + spec_aggregate_answers(model.skip(i as int)),
        decreases upstream_replies@.len() - i,
    {
        let ghost prev = out@.map_values(|a: DnsAnswer| a@);
        let parsed = DnsMessage::parse(&upstream_replies[i]);
        match parsed {
            DnsMessage::DnsRequest(form) => {
                match form.dns_answers {
                    Some(mut ans) => {
                        let ghost contributed = ans@.map_values(|a: DnsAnswer| a@);
                        append_answers(&mut out, &mut ans);
                        proof {
                            assert(out@.map_values(|a: DnsAnswer| a@) =~= prev + contributed);
                        }
                    },
                    None => {
                        proof {
                            assert(spec_reply_answers(model[i as int]) =~= Seq::<
                                AnswerModel,
                            >::empty());
                            assert(prev + Seq::<AnswerModel>::empty() =~= prev);
                        }
                    },
                }
            },
            DnsMessage::DnsResponse(_) => {
                proof {
                    assert(false);
                }
            },
        }
        proof {
            assert(model.skip(i as int)[0] == model[i as int]);
            assert(model.skip(i as int).skip(1) =~= model.skip(i + 1));
            assert(prev + (spec_reply_answers(model[i as int]) + spec_aggregate_answers(
                model.skip(i + 1),
            )) =~= (prev + spec_reply_answers(model[i as int])) + spec_aggregate_answers(
                model.skip(i + 1),
            ));
        }
        i = i + 1;
    }
    proof {
        assert(model.skip(upstream_replies@.len() as int) =~= Seq::<Seq<u8>>::empty());
        assert(out@.map_values(|a: DnsAnswer| a@) + Seq::<AnswerModel>::empty() =~= out@.map_values(
            |a: DnsAnswer| a@,
        ));
    }
    out
}

/// Move every record of `src` to the end of `dst`, keeping order.
fn append_answers(dst: &mut Vec<DnsAnswer>, src: &mut Vec<DnsAnswer>)
    ensures
        final(dst)@.map_values(|a: DnsAnswer| a@) == old(dst)@.map_values(|a: DnsAnswer| a@) + old(
            src,
        )@.map_values(|a: DnsAnswer| a@),
{
    dst.append(src);
    proof {
        assert(dst@.map_values(|a: DnsAnswer| a@) =~= old(dst)@.map_values(|a: DnsAnswer| a@)
            + old(src)@.map_values(|a: DnsAnswer| a@));
    }
}

/// The reply to `request` carrying `answers`: the reply header, the echoed
/// questions, and the answers as the answer section.
pub fn create_response(request: &DnsMessageForm, answers: Vec<DnsAnswer>) -> (m: DnsMessage)
    requires
        request@.dns_questions.len() <= u16::MAX,
        answers@.len() <= u16::MAX,
    ensures
        m matches DnsMessage::DnsResponse(f) && f@ == spec_create_response(
            request@,
            answers@.map_values(|a: DnsAnswer| a@),
        ),
        header_wf(request@.dns_header) ==> header_wf(m.spec_form().dns_header),
{
    let num_answers = answers.len() as u16;
    let dns_header = create_response_header(request, num_answers);
    let dns_questions = create_response_questions(request);
    let m = DnsMessage::DnsResponse(
        DnsMessageForm { dns_header, dns_questions, dns_answers: Some(answers) },
    );
    m
}

/// Response-header law: for any request form, the reply header echoes id,
/// opcode and rd, sets qr to 1, answers rcode 0 exactly when the opcode is
/// 0 (else 4), and counts the echoed questions in qdcount and the carried
/// answers in ancount.
pub proof fn lemma_response_header_fields(f: FormModel, num_answers: u16)
    requires
        f.dns_questions.len() <= u16::MAX,
    ensures
        spec_response_header(f, num_answers).id == f.dns_header.id,
        spec_response_header(f, num_answers).qr == 1,
        spec_response_header(f, num_answers).opcode == f.dns_header.opcode,
        spec_response_header(f, num_answers).rd == f.dns_header.rd,
        spec_response_header(f, num_answers).rcode == 0 <==> f.dns_header.opcode == 0,
        f.dns_header.opcode != 0 ==> spec_response_header(f, num_answers).rcode == 4,
        spec_response_header(f, num_answers).qdcount == f.dns_questions.len(),
        spec_response_header(f, num_answers).ancount == num_answers,
{
}

/// Echoed-questions law: the reply's question section serializes to
/// exactly the bytes of the request's question section.
pub proof fn lemma_echoed_questions(f: FormModel, answers: Seq<AnswerModel>)
    ensures
        spec_questions_bytes(spec_create_response(f, answers).dns_questions)
            == spec_questions_bytes(f.dns_questions),
{
}

/// Fan-out law: the datagram of a query form with a well-formed header
/// carries exactly that header in its first 12 bytes, so each split query,
/// whose header has qdcount 1, goes upstream with qdcount 1 on the wire.
pub proof fn lemma_fanout_query_header(f: FormModel)
    requires
        header_wf(f.dns_header),
    ensures
        spec_parse_header(spec_query_bytes(f)) == Some(f.dns_header),
{
    lemma_header_in_datagram(f.dns_header, spec_questions_bytes(f.dns_questions));
}

} // verus!
