//! Whole outbound messages: the header followed by the question records.
use vstd::prelude::*;
use crate::error::EncodingError;
use crate::header::{be16, header_bytes, lemma_header_length, DnsHeader, DNS_HEADER_LEN};
use crate::name::{append_range, name_encoding};
use crate::record::{question_encoding, question_name_encoding, QuestionSection};

verus! {

/// An answer record. The encoder does not write answer sections yet.
pub struct AnswerSection {
    pub name: String,
    pub record_type: u16,
    pub class: u16,
    pub ttl: u32,
    pub length: u16,
    pub data: String,
}

/// A message of one question, with an answer that is either absent or present.
pub struct DnsPacket {
    pub header: DnsHeader,
    pub question: QuestionSection,
    pub answer: Option<AnswerSection>,
}

/// The blocks of `qs` one after another, in order.
pub open spec fn concat_blocks(qs: Seq<Seq<u8>>) -> Seq<u8>
    decreases qs.len(),
{
    if qs.len() == 0 {
        Seq::empty()
    } else {
        concat_blocks(qs.drop_last()) + qs.last()
    }
}

/// A message of the header and the given question blocks, or the mismatch error where the
/// header declares another number of questions.
pub open spec fn assembly(h: DnsHeader, qs: Seq<Seq<u8>>) -> Result<Seq<u8>, EncodingError> {
    if h.question_count != qs.len() {
        Err(EncodingError::QuestionCountMismatch)
    } else {
        Ok(header_bytes(h) + concat_blocks(qs))
    }
}

/// The wire form of a packet: its question encoded, then assembled under its header.
pub open spec fn packet_encoding(p: DnsPacket) -> Result<Seq<u8>, EncodingError> {
    match question_encoding(p.question) {
        Ok(qb) => assembly(p.header, seq![qb]),
        Err(e) => Err(e),
    }
}

/// Encoding is a function of the value encoded: equal headers give equal bytes, and equal
/// names give equal results.
pub proof fn lemma_encoding_deterministic(h1: DnsHeader, h2: DnsHeader, n1: Seq<u8>, n2: Seq<u8>)
    requires
        h1 == h2,
        n1 == n2,
    ensures
        header_bytes(h1) == header_bytes(h2),
        name_encoding(n1) == name_encoding(n2),
{
}

/// Assembly fails with `QuestionCountMismatch` whenever the declared question count differs
/// from the number of question blocks.
pub proof fn lemma_count_mismatch(h: DnsHeader, qs: Seq<Seq<u8>>)
    requires
        h.question_count != qs.len(),
    ensures
        assembly(h, qs) == Err::<Seq<u8>, EncodingError>(EncodingError::QuestionCountMismatch),
{
}

/// A packet whose header declares one question, and whose question's name encodes to `nb`,
/// is the twelve header bytes, then `nb`, then two bytes of type and two of class.
pub proof fn lemma_packet_layout(p: DnsPacket, nb: Seq<u8>)
    requires
        p.header.question_count == 1,
        question_name_encoding(p.question) == Ok::<Seq<u8>, EncodingError>(nb),
    ensures
        packet_encoding(p) == Ok::<Seq<u8>, EncodingError>(
            header_bytes(p.header) + nb + be16(p.question.resource_record.record_type) + be16(
                p.question.resource_record.class,
            ),
        ),
        packet_encoding(p) is Ok ==> packet_encoding(p)->Ok_0.len() == DNS_HEADER_LEN + nb.len()
            + 4,
{
    lemma_header_length(p.header);
    let qb = nb + be16(p.question.resource_record.record_type) + be16(
        p.question.resource_record.class,
    );
    let one = seq![qb];
    assert(one.drop_last() =~= Seq::<Seq<u8>>::empty());
    assert(one.last() == qb);
    assert(concat_blocks(one) == concat_blocks(one.drop_last()) + qb);
    assert(concat_blocks(one) =~= qb);
    assert(header_bytes(p.header) + qb =~= header_bytes(p.header) + nb + be16(
        p.question.resource_record.record_type,
    ) + be16(p.question.resource_record.class));
}

/// Concatenates the header bytes and the question blocks in order. Fails where the header's
/// question count differs from the number of blocks. Answer, authority and additional
/// sections are not written: non-zero counts for them give a message that lacks them.
pub fn assemble(header: &DnsHeader, questions: &Vec<Vec<u8>>) -> (r: Result<Vec<u8>, EncodingError>)
    requires
        header.wf(),
    ensures
        match r {
            Ok(v) => assembly(*header, questions.deep_view()) == Ok::<Seq<u8>, EncodingError>(v@),
            Err(e) => assembly(*header, questions.deep_view()) == Err::<Seq<u8>, EncodingError>(e),
        },
{
    if header.question_count as usize != questions.len() {
        return Err(EncodingError::QuestionCountMismatch);
    }
    let ghost qs = questions.deep_view();
    let mut out = header.serialize_to_bytes();
    let mut k: usize = 0;
    proof {
        assert(qs.take(0) =~= Seq::<Seq<u8>>::empty());
        assert(out@ =~= header_bytes(*header) + concat_blocks(qs.take(0)));
    }
    while k < questions.len()
        invariant
            qs == questions.deep_view(),
            qs.len() == questions@.len(),
            k <= questions@.len(),
            out@ == header_bytes(*header) + concat_blocks(qs.take(k as int)),
        decreases questions@.len() - k,
    {
        let block = questions[k].as_slice();
        append_range(&mut out, block, 0, block.len());
        proof {
            assert(qs[k as int] == questions@[k as int]@);
            assert(block@.subrange(0, block@.len() as int) =~= block@);
            assert(qs.take(k + 1).drop_last() =~= qs.take(k as int));
            assert(out@ =~= header_bytes(*header) + concat_blocks(qs.take(k + 1)));
        }
        k = k + 1;
    }
    assert(qs.take(questions@.len() as int) =~= qs);
    Ok(out)
}

impl DnsPacket {
    /// The packet in wire form: header then question. Fails where the question's name cannot
    /// be encoded, else where the header does not declare exactly one question. The answer
    /// is not written.
    pub fn serialize_to_bytes(&self) -> (r: Result<Vec<u8>, EncodingError>)
        requires
            self.header.wf(),
        ensures
            match r {
                Ok(v) => packet_encoding(*self) == Ok::<Seq<u8>, EncodingError>(v@),
                Err(e) => packet_encoding(*self) == Err::<Seq<u8>, EncodingError>(e),
            },
    {
        match self.question.serialize_to_bytes() {
            Err(e) => Err(e),
            Ok(qb) => {
                let ghost qs = qb@;
                assert(qb.deep_view() =~= qs);
                let blocks = vec![qb];
                assert(blocks.deep_view()[0] == qs);
                assert(blocks.deep_view() =~= seq![qs]);
                assemble(&self.header, &blocks)
            },
        }
    }
}

} // verus!
