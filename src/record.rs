//! Resource records and the question record built on them.
use vstd::prelude::*;
use vstd::utf8::encode_utf8;
use crate::error::EncodingError;
use crate::header::{be16, push_be16};
use crate::name::{encode_name, name_encoding};

verus! {

/// A resource record: owner name, type, class, time to live and record data.
pub struct ResourceRecord {
    /// Name of the node the record pertains to, as dotted text.
    pub name: String,
    /// Record type, e.g. 1 for an address record.
    pub record_type: u16,
    /// Record class, e.g. 1 for the internet.
    pub class: u16,
    /// Seconds the record stays valid.
    pub ttl: u32,
    /// Length of `record_data` in bytes.
    pub record_data_length: u16,
    /// Record data.
    pub record_data: Vec<u8>,
}

impl ResourceRecord {
    /// The declared data length is the length of the data.
    pub open spec fn wf(&self) -> bool {
        self.record_data_length == self.record_data@.len()
    }

    /// An address record with an empty name, class 0, no time to live and no data.
    pub fn new() -> (r: ResourceRecord)
        ensures
            r.wf(),
            r.name@ == Seq::<char>::empty(),
            r.record_type == 1,
            r.class == 0,
            r.ttl == 0,
            r.record_data_length == 0,
            r.record_data@ == Seq::<u8>::empty(),
    {
        ResourceRecord {
            name: String::new(),
            record_type: 1,
            class: 0,
            ttl: 0,
            record_data_length: 0,
            record_data: Vec::new(),
        }
    }
}

/// A question record: the name, type and class of a resource record, without time to live or data.
pub struct QuestionSection {
    pub resource_record: ResourceRecord,
}

/// The label sequence of the question's name.
pub open spec fn question_name_encoding(q: QuestionSection) -> Result<Seq<u8>, EncodingError> {
    name_encoding(encode_utf8(q.resource_record.name@))
}

/// The wire form of a question: the encoded name, then type and class, big-endian.
pub open spec fn question_encoding(q: QuestionSection) -> Result<Seq<u8>, EncodingError> {
    match question_name_encoding(q) {
        Ok(nb) => Ok(nb + be16(q.resource_record.record_type) + be16(q.resource_record.class)),
        Err(e) => Err(e),
    }
}

impl QuestionSection {
    /// A question on an empty name, holding the record of `ResourceRecord::new`.
    pub fn new() -> (r: QuestionSection)
        ensures
            r.resource_record.wf(),
            r.resource_record.name@ == Seq::<char>::empty(),
            r.resource_record.record_type == 1,
            r.resource_record.class == 0,
            r.resource_record.ttl == 0,
            r.resource_record.record_data_length == 0,
            r.resource_record.record_data@ == Seq::<u8>::empty(),
    {
        QuestionSection { resource_record: ResourceRecord::new() }
    }

    /// The question's name as a label sequence of raw bytes.
    pub fn to_label_sequence(&self) -> (r: Result<Vec<u8>, EncodingError>)
        ensures
            match r {
                Ok(v) => question_name_encoding(*self) == Ok::<Seq<u8>, EncodingError>(v@),
                Err(e) => question_name_encoding(*self) == Err::<Seq<u8>, EncodingError>(e),
            },
    {
        encode_name(self.resource_record.name.as_str())
    }

    /// The question in wire form; fails where its name cannot be encoded.
    pub fn serialize_to_bytes(&self) -> (r: Result<Vec<u8>, EncodingError>)
        ensures
            match r {
                Ok(v) => question_encoding(*self) == Ok::<Seq<u8>, EncodingError>(v@),
                Err(e) => question_encoding(*self) == Err::<Seq<u8>, EncodingError>(e),
            },
    {
        match self.to_label_sequence() {
            Err(e) => Err(e),
            Ok(name_bytes) => {
                let mut buf = name_bytes;
                push_be16(&mut buf, self.resource_record.record_type);
                push_be16(&mut buf, self.resource_record.class);
                Ok(buf)
            },
        }
    }
}

} // verus!
