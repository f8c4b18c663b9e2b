use dns_starter_rust::error::ParseError;
use dns_starter_rust::parser::header_types::AuthAnswer;
use dns_starter_rust::parser::header_types::OpCode;
use dns_starter_rust::parser::header_types::QrIndicator;
use dns_starter_rust::parser::header_types::RecursionDesired;
use dns_starter_rust::parser::header_types::RecursionStatus;
use dns_starter_rust::parser::header_types::ResponseCode;
use dns_starter_rust::parser::header_types::Truncation;
use dns_starter_rust::parser::section::parse_all_sections;
use dns_starter_rust::parser::section::RRClass;
use dns_starter_rust::parser::section::RRType;
use dns_starter_rust::parser::question::parse_single_qsection;
use dns_starter_rust::parser::DnsHeader;

#[test]
pub fn test_header_id_is_correct_number() {
    let hdr: [u8; 12] = [0x7F, 0xAC, 0x97, 0x80, 0, 0, 0, 0, 0, 0, 0, 0];
    let hdr = DnsHeader::try_from(&hdr[..]).unwrap();
    assert_eq!(0x7FAC, hdr.id);
}

#[test]
pub fn test_header_second_row_is_correct_bits() {
    let hdr = [
        0x7F, 0xAC, 0x97, 0x80, 0x54, 0x12, 0x34, 0x64, 0x55, 0x20, 0x01, 0x00,
    ];
    let hdr = DnsHeader::try_from(&hdr[..]).unwrap();
    assert_eq!(QrIndicator::Reply, hdr.qr);
    assert_eq!(OpCode::Status, hdr.opcode);
    assert_eq!(AuthAnswer::Authoritative, hdr.aa);
    assert_eq!(Truncation::Truncated, hdr.tc);
    assert_eq!(RecursionDesired::Recursion, hdr.rd);
    assert_eq!(RecursionStatus::Available, hdr.rs);
    assert_eq!(0, hdr.reserved);
    assert_eq!(ResponseCode::NoError, hdr.rcode);
}

#[test]
pub fn test_header_counts() {
    let hdr = [
        0x7F, 0xAC, 0x97, 0x80, 0x54, 0x12, 0x34, 0x64, 0x55, 0x20, 0x01, 0x00,
    ];
    let hdr = DnsHeader::try_from(&hdr[..]).unwrap();

    assert_eq!(0x5412, hdr.qdcount);
    assert_eq!(0x3464, hdr.ancount);
    assert_eq!(0x5520, hdr.nscount);
    assert_eq!(0x0100, hdr.arcount);
}

#[test]
pub fn header_same() {
    let actual = [
        0x7F, 0xAC, 0x97, 0x80, 0x54, 0x12, 0x34, 0x64, 0x55, 0x20, 0x01, 0x00,
    ];
    let hdr = DnsHeader::try_from(&actual[..]).unwrap();
    let bytes = hdr.to_bytes();
    assert_eq!(actual, bytes);
}

#[test]
pub fn create_header() {}

#[test]
fn parse_question_given_good_input() {
    let section: [u8; 16] = [
        0x06, 0x67, 0x6f, 0x6f, 0x67, 0x6c, 0x65, 0x03, 0x63, 0x6f, 0x6d, 0x00, 0x0, 0x01, 0x0,
        0x01,
    ];
    let mut pos: usize = 0;
    let qs = parse_single_qsection(&section[..], &mut pos).unwrap();
    assert_eq!(
        qs.inner.raw_domain,
        [6, 103, 111, 111, 103, 108, 101, 3, 99, 111, 109, 0].to_vec()
    );
    assert_eq!(qs.inner.rr_class, RRClass::Internet);
    assert_eq!(qs.inner.rr_type, RRType::A);
    assert_eq!(qs.inner.domain, "google.com".to_owned());
}

#[test]
fn parse_question_invalid_char_is_section_error() {
    // the shortened first label makes 0x6c the next length byte, whose label
    // then claims the invalid byte 0x03
    let section: [u8; 16] = [
        4, 0x67, 0x6f, 0x6f, 0x67, 0x6c, 0x65, 0x03, 0x63, 0x6f, 0x6d, 0x00, 0x0, 0x01, 0x0, 0x01,
    ];
    let mut pos: usize = 0;
    let r = parse_single_qsection(&section[..], &mut pos);
    assert_eq!(r.unwrap_err(), ParseError::SectionError);
}

#[test]
fn parse_question_short_slice_is_section_error() {
    let section: [u8; 3] = [4, 0x67, 0x6f];
    let mut pos: usize = 0;
    let r = parse_single_qsection(&section[..], &mut pos);
    assert_eq!(r.unwrap_err(), ParseError::SectionError);
}

#[test]
fn parse_question_missing_rr_bytes_is_section_error() {
    let section: [u8; 16] = [
        6, 0x67, 0x6f, 0x6f, 0x67, 0x6c, 0x65, 0x03, 0x63, 0x6f, 0x6d, 4, 0x67, 0x67, 0x67, 0x67,
    ];
    let mut pos: usize = 0;
    let r = parse_single_qsection(&section[..], &mut pos);
    assert_eq!(r.unwrap_err(), ParseError::SectionError);
}

// The slice parser must also reject every byte outside the label charset.
#[test]
fn slice_parser_label_charset_all_bytes() {
    for b in 0u16..=255 {
        let b = b as u8;
        let data: [u8; 8] = [1, b, 0, 0, 1, 0, 1, 0];
        let mut pos: usize = 0;
        let r = parse_single_qsection(&data[..], &mut pos);
        let valid = b.is_ascii_alphanumeric() || b == b'-';
        if valid {
            let qs = r.unwrap();
            assert_eq!(qs.inner.domain, String::from_utf8(vec![b]).unwrap());
        } else {
            assert_eq!(r.unwrap_err(), ParseError::SectionError);
        }
    }
}

#[test]
fn parse_all_sections_one_of_each() {
    // one question and one answer, back to back
    let data: [u8; 31] = [
        2, b'd', b'b', 0, 0, 1, 0, 1, // question: db / A / IN
        1, b'x', 0, 0, 1, 0, 1, // answer record head: x / A / IN
        0, 0, 0, 0xFF, // TTL
        0, 4, // resource-data length
        76, 76, 21, 21, // resource data
        0, 0, 0, 0, 0, 0, // slack
    ];
    let (qsecs, asecs) = parse_all_sections(&data[..], 1, 1).unwrap();
    assert_eq!(qsecs.len(), 1);
    assert_eq!(qsecs[0].inner.domain, "db".to_owned());
    assert_eq!(asecs.len(), 1);
    assert_eq!(asecs[0].inner.domain, "x".to_owned());
    assert_eq!(asecs[0].ttl.0, 0xFF);
    assert_eq!(asecs[0].length.0, 4);
    assert_eq!(asecs[0].data, vec![76, 76, 21, 21]);
}

#[test]
fn parser_header_rejects_short_slice() {
    let hdr: [u8; 4] = [0x7F, 0xAC, 0x97, 0x80];
    assert_eq!(
        DnsHeader::try_from(&hdr[..]).unwrap_err(),
        ParseError::ConversionError
    );
}

#[test]
fn parser_opcode_future_use_is_accepted() {
    assert_eq!(OpCode::try_from(7).unwrap(), OpCode::FutureUse);
    assert_eq!(OpCode::try_from(16).unwrap_err(), ParseError::ConversionError);
    assert_eq!(
        ResponseCode::try_from(9).unwrap_err(),
        ParseError::UnimplementedError
    );
}
