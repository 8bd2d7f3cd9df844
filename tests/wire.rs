use dns_codec::{assemble, encode_name, DnsHeader, DnsPacket, EncodingError, QuestionSection, ResourceRecord};

fn response_header() -> DnsHeader {
    let mut h = DnsHeader::new();
    h.id = 1234;
    h.query_indicator = true;
    h.question_count = 1;
    h
}

fn question(name: &str, record_type: u16, class: u16) -> QuestionSection {
    let mut q = QuestionSection::new();
    q.resource_record.name = name.to_string();
    q.resource_record.record_type = record_type;
    q.resource_record.class = class;
    q
}

fn google_labels() -> Vec<u8> {
    let mut v = vec![6u8];
    v.extend_from_slice(b"google");
    v.push(3);
    v.extend_from_slice(b"com");
    v.push(0);
    v
}

#[test]
fn header_round_trip() {
    let bytes = response_header().serialize_to_bytes();
    assert_eq!(bytes, vec![0x04, 0xD2, 0x80, 0x00, 0x00, 0x01, 0x00, 0x00, 0x00, 0x00, 0x00, 0x00]);
}

#[test]
fn new_header_is_all_zero() {
    let h = DnsHeader::new();
    assert_eq!(h.id, 0);
    assert!(!h.query_indicator && !h.authoritative_answer && !h.truncation);
    assert!(!h.recursion_desired && !h.recursion_available && !h.reserved);
    assert!(!h.authentic_data && !h.check_disabled);
    assert_eq!((h.opcode, h.response_code), (0, 0));
    assert_eq!(h.serialize_to_bytes(), vec![0u8; 12]);
}

#[test]
fn header_flag_bit_positions() {
    let cases: Vec<(fn(&mut DnsHeader), usize, u8)> = vec![
        (|h| h.query_indicator = true, 2, 0x80),
        (|h| h.opcode = 2, 2, 0x10),
        (|h| h.opcode = 15, 2, 0x78),
        (|h| h.authoritative_answer = true, 2, 0x04),
        (|h| h.truncation = true, 2, 0x02),
        (|h| h.recursion_desired = true, 2, 0x01),
        (|h| h.recursion_available = true, 3, 0x80),
        (|h| h.reserved = true, 3, 0x40),
        (|h| h.authentic_data = true, 3, 0x20),
        (|h| h.check_disabled = true, 3, 0x10),
        (|h| h.response_code = 3, 3, 0x03),
        (|h| h.response_code = 15, 3, 0x0F),
    ];
    for (set, index, value) in cases {
        let mut h = DnsHeader::new();
        set(&mut h);
        let bytes = h.serialize_to_bytes();
        let mut expected = vec![0u8; 12];
        expected[index] = value;
        assert_eq!(bytes, expected);
    }
}

#[test]
fn header_all_flags_set() {
    let mut h = DnsHeader::new();
    h.query_indicator = true;
    h.opcode = 15;
    h.authoritative_answer = true;
    h.truncation = true;
    h.recursion_desired = true;
    h.recursion_available = true;
    h.reserved = true;
    h.authentic_data = true;
    h.check_disabled = true;
    h.response_code = 15;
    assert_eq!(&h.serialize_to_bytes()[2..4], &[0xFF, 0xFF]);
}

#[test]
fn header_counts_are_big_endian() {
    let mut h = DnsHeader::new();
    h.id = 0xABCD;
    h.question_count = 0x0102;
    h.answer_record_count = 0x0304;
    h.authority_record_count = 0x0506;
    h.additional_record_count = 0xFFFF;
    assert_eq!(
        h.serialize_to_bytes(),
        vec![0xAB, 0xCD, 0, 0, 0x01, 0x02, 0x03, 0x04, 0x05, 0x06, 0xFF, 0xFF]
    );
}

#[test]
fn header_length_is_always_twelve() {
    let mut h = DnsHeader::new();
    assert_eq!(h.serialize_to_bytes().len(), 12);
    h.id = u16::MAX;
    h.opcode = 9;
    h.response_code = 5;
    h.question_count = u16::MAX;
    h.additional_record_count = 7;
    assert_eq!(h.serialize_to_bytes().len(), 12);
    assert_eq!(response_header().serialize_to_bytes().len(), 12);
}

#[test]
fn encoding_twice_gives_identical_bytes() {
    let h = response_header();
    assert_eq!(h.serialize_to_bytes(), h.serialize_to_bytes());
    assert_eq!(encode_name("google.com"), encode_name("google.com"));
    assert_eq!(encode_name("a..b"), encode_name("a..b"));
}

#[test]
fn name_encoding_google() {
    assert_eq!(encode_name("google.com"), Ok(google_labels()));
}

#[test]
fn name_encoding_single_label() {
    assert_eq!(encode_name("localhost"), Ok({
        let mut v = vec![9u8];
        v.extend_from_slice(b"localhost");
        v.push(0);
        v
    }));
}

#[test]
fn name_encoding_counts_utf8_bytes() {
    let mut expected = vec![2u8, 0xC3, 0xA9, 3];
    expected.extend_from_slice(b"com");
    expected.push(0);
    assert_eq!(encode_name("\u{e9}.com"), Ok(expected));
}

#[test]
fn label_of_63_bytes_succeeds() {
    let label = "a".repeat(63);
    let encoded = encode_name(&label).unwrap();
    assert_eq!(encoded.len(), 65);
    assert_eq!(encoded[0], 63);
    assert_eq!(encoded[64], 0);
}

#[test]
fn label_of_64_bytes_fails() {
    let label = "a".repeat(64);
    assert_eq!(encode_name(&label), Err(EncodingError::LabelTooLong));
    assert_eq!(encode_name(&format!("www.{}.com", label)), Err(EncodingError::LabelTooLong));
}

#[test]
fn consecutive_delimiters_fail() {
    assert_eq!(encode_name("a..b"), Err(EncodingError::EmptyLabel));
}

#[test]
fn empty_labels_at_the_edges_fail() {
    assert_eq!(encode_name(""), Err(EncodingError::EmptyLabel));
    assert_eq!(encode_name(".com"), Err(EncodingError::EmptyLabel));
    assert_eq!(encode_name("google.com."), Err(EncodingError::EmptyLabel));
    assert_eq!(encode_name("."), Err(EncodingError::EmptyLabel));
}

#[test]
fn empty_label_is_reported_before_long_label() {
    let name = format!("{}..b", "a".repeat(64));
    assert_eq!(encode_name(&name), Err(EncodingError::EmptyLabel));
}

#[test]
fn name_of_255_bytes_succeeds() {
    let l63 = "a".repeat(63);
    let name = format!("{}.{}.{}.{}", l63, l63, l63, "b".repeat(61));
    assert_eq!(encode_name(&name).unwrap().len(), 255);
}

#[test]
fn name_over_255_bytes_fails() {
    let l63 = "a".repeat(63);
    let name = format!("{}.{}.{}.{}", l63, l63, l63, "b".repeat(62));
    assert_eq!(encode_name(&name), Err(EncodingError::NameTooLong));
}

#[test]
fn resource_record_defaults() {
    let r = ResourceRecord::new();
    assert_eq!(r.name, "");
    assert_eq!((r.record_type, r.class, r.ttl, r.record_data_length), (1, 0, 0, 0));
    assert!(r.record_data.is_empty());
}

#[test]
fn question_defaults() {
    let q = QuestionSection::new();
    assert_eq!(q.resource_record.name, "");
    assert_eq!(q.resource_record.record_type, 1);
    assert_eq!(q.resource_record.class, 0);
    assert_eq!(q.to_label_sequence(), Err(EncodingError::EmptyLabel));
}

#[test]
fn question_label_sequence() {
    assert_eq!(question("google.com", 1, 1).to_label_sequence(), Ok(google_labels()));
}

#[test]
fn question_serialization() {
    let mut expected = google_labels();
    expected.extend_from_slice(&[0x00, 0x0F, 0x01, 0x02]);
    assert_eq!(question("google.com", 15, 0x0102).serialize_to_bytes(), Ok(expected));
    assert_eq!(question("a..b", 1, 1).serialize_to_bytes(), Err(EncodingError::EmptyLabel));
}

#[test]
fn assemble_concatenates_in_order() {
    let mut h = response_header();
    h.question_count = 2;
    let blocks = vec![vec![1u8, 2], vec![3u8]];
    let mut expected = h.serialize_to_bytes();
    expected.extend_from_slice(&[1, 2, 3]);
    assert_eq!(assemble(&h, &blocks), Ok(expected));
}

#[test]
fn assemble_rejects_count_mismatch() {
    let mut h = response_header();
    h.question_count = 2;
    let blocks = vec![question("google.com", 1, 1).serialize_to_bytes().unwrap()];
    assert_eq!(assemble(&h, &blocks), Err(EncodingError::QuestionCountMismatch));
    h.question_count = 0;
    assert_eq!(assemble(&h, &blocks), Err(EncodingError::QuestionCountMismatch));
}

#[test]
fn end_to_end_example_com() {
    let packet = DnsPacket { header: response_header(), question: question("example.com", 1, 1), answer: None };
    let bytes = packet.serialize_to_bytes().unwrap();
    assert_eq!(bytes.len(), 12 + (1 + 7 + 1 + 3 + 1) + 2 + 2);
    let mut expected = vec![0x04, 0xD2, 0x80, 0x00, 0x00, 0x01, 0x00, 0x00, 0x00, 0x00, 0x00, 0x00, 7];
    expected.extend_from_slice(b"example");
    expected.push(3);
    expected.extend_from_slice(b"com");
    expected.extend_from_slice(&[0, 0, 1, 0, 1]);
    assert_eq!(bytes, expected);
}

#[test]
fn packet_errors() {
    let mut packet = DnsPacket { header: response_header(), question: question("a..b", 1, 1), answer: None };
    assert_eq!(packet.serialize_to_bytes(), Err(EncodingError::EmptyLabel));
    packet.question = question("google.com", 1, 1);
    packet.header.question_count = 2;
    assert_eq!(packet.serialize_to_bytes(), Err(EncodingError::QuestionCountMismatch));
}
