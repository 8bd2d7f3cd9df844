//! The fixed 12-byte DNS message header and its bit-exact serialization.
use vstd::prelude::*;

verus! {

/// Number of bytes in a serialized header.
pub const DNS_HEADER_LEN: usize = 12;

/// The DNS message header: a transaction id, the packed flag fields and four record counts.
#[derive(Debug, Clone, Copy, PartialEq, Eq, Structural)]
pub struct DnsHeader {
    /// Transaction id.
    pub id: u16,
    /// QR: set in a response, clear in a query.
    pub query_indicator: bool,
    /// OPCODE: 4 bits.
    pub opcode: u8,
    /// AA: authoritative answer.
    pub authoritative_answer: bool,
    /// TC: truncation.
    pub truncation: bool,
    /// RD: recursion desired.
    pub recursion_desired: bool,
    /// RA: recursion available.
    pub recursion_available: bool,
    /// Z: reserved.
    pub reserved: bool,
    /// AD: authentic data.
    pub authentic_data: bool,
    /// CD: checking disabled.
    pub check_disabled: bool,
    /// RCODE: 4 bits.
    pub response_code: u8,
    /// QDCOUNT.
    pub question_count: u16,
    /// ANCOUNT.
    pub answer_record_count: u16,
    /// NSCOUNT.
    pub authority_record_count: u16,
    /// ARCOUNT.
    pub additional_record_count: u16,
}

/// A flag as the value of its single bit.
pub open spec fn bit(b: bool) -> int {
    if b { 1 } else { 0 }
}

/// A 16-bit value as two bytes, most significant first.
pub open spec fn be16(v: u16) -> Seq<u8> {
    seq![(v / 256) as u8, (v % 256) as u8]
}

/// Byte 2 of the header: QR (bit 7), OPCODE (bits 6-3), AA (bit 2), TC (bit 1), RD (bit 0).
pub open spec fn flags_high(h: DnsHeader) -> int {
    128 * bit(h.query_indicator) + 8 * h.opcode + 4 * bit(h.authoritative_answer) + 2 * bit(
        h.truncation,
    ) + bit(h.recursion_desired)
}

/// Byte 3 of the header: RA (bit 7), Z (bit 6), AD (bit 5), CD (bit 4), RCODE (bits 3-0).
pub open spec fn flags_low(h: DnsHeader) -> int {
    128 * bit(h.recursion_available) + 64 * bit(h.reserved) + 32 * bit(h.authentic_data) + 16
        * bit(h.check_disabled) + h.response_code
}

/// The wire form of a header.
pub open spec fn header_bytes(h: DnsHeader) -> Seq<u8> {
    be16(h.id) + seq![flags_high(h) as u8, flags_low(h) as u8] + be16(h.question_count) + be16(
        h.answer_record_count,
    ) + be16(h.authority_record_count) + be16(h.additional_record_count)
}

/// Every header serializes to exactly twelve bytes, whatever its fields hold.
pub proof fn lemma_header_length(h: DnsHeader)
    ensures
        header_bytes(h).len() == DNS_HEADER_LEN,
{
}

fn bit_u8(b: bool) -> (r: u8)
    ensures
        r == bit(b),
{
    if b { 1 } else { 0 }
}

pub(crate) fn push_be16(buf: &mut Vec<u8>, v: u16)
    ensures
        final(buf)@ == old(buf)@ + be16(v),
{
    buf.push((v / 256) as u8);
    buf.push((v % 256) as u8);
    assert(final(buf)@ =~= old(buf)@ + be16(v));
}

impl DnsHeader {
    /// The four-bit fields fit in four bits.
    pub open spec fn wf(&self) -> bool {
        self.opcode < 16 && self.response_code < 16
    }

    /// A header with every field zero or false.
    pub fn new() -> (r: DnsHeader)
        ensures
            r.wf(),
            r.id == 0,
            !r.query_indicator,
            r.opcode == 0,
            !r.authoritative_answer,
            !r.truncation,
            !r.recursion_desired,
            !r.recursion_available,
            !r.reserved,
            !r.authentic_data,
            !r.check_disabled,
            r.response_code == 0,
            r.question_count == 0,
            r.answer_record_count == 0,
            r.authority_record_count == 0,
            r.additional_record_count == 0,
    {
        DnsHeader {
            id: 0,
            query_indicator: false,
            opcode: 0,
            authoritative_answer: false,
            truncation: false,
            recursion_desired: false,
            recursion_available: false,
            reserved: false,
            authentic_data: false,
            check_disabled: false,
            response_code: 0,
            question_count: 0,
            answer_record_count: 0,
            authority_record_count: 0,
            additional_record_count: 0,
        }
    }

    /// The header in wire order, big-endian, with the flag fields packed into bytes 2 and 3.
    pub fn serialize_to_bytes(&self) -> (r: Vec<u8>)
        requires
            self.wf(),
        ensures
            r@ == header_bytes(*self),
            r@.len() == DNS_HEADER_LEN,
    {
        let mut buf: Vec<u8> = Vec::with_capacity(DNS_HEADER_LEN);
        push_be16(&mut buf, self.id);

        let qr = bit_u8(self.query_indicator);
        let op = self.opcode;
        let aa = bit_u8(self.authoritative_answer);
        let tc = bit_u8(self.truncation);
        let rd = bit_u8(self.recursion_desired);
        let high: u8 = (qr << 7u8) | (op << 3u8) | (aa << 2u8) | (tc << 1u8) | rd;
        assert(high == qr * 128 + op * 8 + aa * 4 + tc * 2 + rd) by (bit_vector)
            requires
                high == (qr << 7u8) | (op << 3u8) | (aa << 2u8) | (tc << 1u8) | rd,
                qr <= 1,
                op < 16,
                aa <= 1,
                tc <= 1,
                rd <= 1,
        ;
        buf.push(high);

        let ra = bit_u8(self.recursion_available);
        let z = bit_u8(self.reserved);
        let ad = bit_u8(self.authentic_data);
        let cd = bit_u8(self.check_disabled);
        let rc = self.response_code;
        let low: u8 = (ra << 7u8) | (z << 6u8) | (ad << 5u8) | (cd << 4u8) | rc;
        assert(low == ra * 128 + z * 64 + ad * 32 + cd * 16 + rc) by (bit_vector)
            requires
                low == (ra << 7u8) | (z << 6u8) | (ad << 5u8) | (cd << 4u8) | rc,
                ra <= 1,
                z <= 1,
                ad <= 1,
                cd <= 1,
                rc < 16,
        ;
        buf.push(low);

        push_be16(&mut buf, self.question_count);
        push_be16(&mut buf, self.answer_record_count);
        push_be16(&mut buf, self.authority_record_count);
        push_be16(&mut buf, self.additional_record_count);
        assert(buf@ =~= header_bytes(*self));
        buf
    }
}

} // verus!
