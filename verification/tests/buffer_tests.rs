use dns_starter_rust::buffer::UdpBuffer;
use dns_starter_rust::error::ParseError;
use dns_starter_rust::error::UdpBufferError;
use dns_starter_rust::error::UnpackError;
use dns_starter_rust::header::AuthAnswer;
use dns_starter_rust::header::DnsHeader;
use dns_starter_rust::header::HeaderSecondRowFirstHalf;
use dns_starter_rust::header::HeaderSecondRowSecondHalf;
use dns_starter_rust::header::OpCode;
use dns_starter_rust::header::QueryResponse;
use dns_starter_rust::header::RecursionAvailablity;
use dns_starter_rust::header::RecursionDesired;
use dns_starter_rust::header::ResponseCode;
use dns_starter_rust::header::SectionCount;
use dns_starter_rust::header::Truncation;
use dns_starter_rust::section::Class;
use dns_starter_rust::section::SectionGroup;
use dns_starter_rust::section::Type;

#[test]
fn test_parse_domain_2() {
    let mut buf = [0u8; 512];
    let head = [
        250u8, 44, 1, 0, 0, 2, 0, 0, 0, 0, 0, 0, 3, 97, 98, 99, 17, 108, 111, 110, 103, 97, 115,
        115, 100, 111, 109, 97, 105, 110, 110, 97, 109, 101, 3, 99, 111, 109, 0, 0, 1, 0, 1, 3,
        100, 101, 102, 192, 16, 0, 1, 0, 1,
    ];
    buf[..head.len()].copy_from_slice(&head);
    let buf = UdpBuffer::new(buf);
    let _hdr = buf.unpack().unwrap();
}

#[test]
fn test_parse_domain() {
    let mut buf = [0u8; 512];
    [32, 75, 1, 0, 0, 5, 0, 0, 0, 0, 0, 0]
        .into_iter()
        .enumerate()
        .for_each(|(idx, elem)| {
            buf[idx] = elem;
        });
    [
        6, 'g' as u8, 'o' as u8, 'o' as u8, 'g' as u8, 'l' as u8, 'e' as u8, 3, 'c' as u8,
        'o' as u8, 'm' as u8, 0, 0, 1, 0, 1, 6, 'p' as u8, 'h' as u8, 'o' as u8, 't' as u8,
        'o' as u8, 's' as u8, 0xC0, 12, 0, 1, 0, 1, 6, 'i' as u8, 'm' as u8, 'a' as u8,
        'g' as u8, 'e' as u8, 's' as u8, 0xC0, 12, 0, 1, 0, 1, 3, 'd' as u8, 'b' as u8,
        '1' as u8, 0xC0, 28, 0, 1, 0, 1, 3, 'd' as u8, 'b' as u8, '2' as u8, 0xC0, 28, 0, 1, 0,
        1,
    ]
    .into_iter()
    .enumerate()
    .for_each(|(idx, elem)| {
        buf[12 + idx] = elem;
    });
    let mut buf = UdpBuffer::new(buf);
    let _hdr = buf.unpack_dns_header().unwrap();
}

#[test]
fn test_parse_header_udp_buffer() {
    let mut buf = [0u8; 512];
    let buf2 = [127u8, 59, 131, 160, 0, 1, 0, 0, 0, 0, 0, 0];
    buf2.into_iter().enumerate().for_each(|(idx, byte)| {
        buf[idx] = byte;
    });
    let mut cursor = UdpBuffer::new(buf);
    let hdr_actual = cursor.unpack_dns_header().unwrap();
    let hdr = DnsHeader::new(
        0x7f3b,
        HeaderSecondRowFirstHalf::new(
            QueryResponse::Response,
            OpCode::Query,
            AuthAnswer::NotAuthoritative,
            Truncation::Truncated,
            RecursionDesired::IWantRecursion,
        ),
        HeaderSecondRowSecondHalf::new(
            RecursionAvailablity::RecursionAvailable,
            2,
            ResponseCode::NoError,
        )
        .unwrap(),
        SectionCount::new(1, 0, 0, 0),
    );
    assert_eq!(hdr_actual, hdr);
    assert_eq!(hdr_actual.to_bytes(), buf2);
}

// Literal fixture: the twelve bytes decode to the documented field values and
// re-encode to the same bytes.
#[test]
fn literal_header_fixture() {
    let fixture = [
        0x7Fu8, 0x3B, 0x83, 0xA0, 0x00, 0x01, 0x00, 0x00, 0x00, 0x00, 0x00, 0x00,
    ];
    let mut buf = [0u8; 512];
    buf[..12].copy_from_slice(&fixture);
    let mut cursor = UdpBuffer::new(buf);
    let hdr = cursor.unpack_dns_header().unwrap();
    assert_eq!(hdr.txid(), 0x7F3B);
    assert_eq!(*hdr.header_first_half().qr(), QueryResponse::Response);
    assert_eq!(*hdr.header_first_half().opcode(), OpCode::Query);
    assert_eq!(*hdr.header_first_half().aa(), AuthAnswer::NotAuthoritative);
    assert_eq!(*hdr.header_first_half().tc(), Truncation::Truncated);
    assert_eq!(*hdr.header_first_half().rd(), RecursionDesired::IWantRecursion);
    assert_eq!(
        *hdr.header_second_half().ra(),
        RecursionAvailablity::RecursionAvailable
    );
    assert_eq!(hdr.header_second_half().reserved(), 2);
    assert_eq!(*hdr.header_second_half().rcode(), ResponseCode::NoError);
    assert_eq!(hdr.counts().qdcount(), 1);
    assert_eq!(hdr.counts().ancount(), 0);
    assert_eq!(hdr.counts().nscount(), 0);
    assert_eq!(hdr.counts().arcount(), 0);
    assert_eq!(hdr.to_bytes(), fixture);
}

// Compression round-trip: record 2's name is "db1" plus a pointer to offset
// 28, where "abc.longassdomainnamename.com" lies; decoding yields all four
// labels in order.
#[test]
fn compression_round_trip() {
    let mut buf = [0u8; 512];
    // header: two question records
    buf[0] = 0xAB;
    buf[1] = 0xCD;
    buf[2] = 0x01;
    buf[3] = 0x00;
    buf[5] = 2;
    // record 1: a 15-byte label at offset 12, whose name continues at 28
    buf[12] = 15;
    for i in 13..28 {
        buf[i] = b'p';
    }
    // offset 28: abc.longassdomainnamename.com
    buf[28] = 3;
    buf[29..32].copy_from_slice(b"abc");
    buf[32] = 21;
    buf[33..54].copy_from_slice(b"longassdomainnamename");
    buf[54] = 3;
    buf[55..58].copy_from_slice(b"com");
    buf[58] = 0;
    // record 1 type and class
    buf[60] = 1;
    buf[62] = 1;
    // record 2: db1 + pointer to offset 28
    buf[63] = 3;
    buf[64..67].copy_from_slice(b"db1");
    buf[67] = 0xC0;
    buf[68] = 28;
    buf[70] = 1;
    buf[72] = 1;
    let cursor = UdpBuffer::new(buf);
    let (_hdr, sections) = cursor.unpack().unwrap();
    let qsection = sections[0].as_ref().unwrap();
    assert_eq!(qsection.groups.len(), 2);
    assert_eq!(
        qsection.groups[1].domain,
        vec![
            "db1".to_string(),
            "abc".to_string(),
            "longassdomainnamename".to_string(),
            "com".to_string()
        ]
    );
}

// Label charset invariant: every byte outside ASCII alphanumerics and hyphen
// fails the decode with a section error; every byte inside succeeds.
#[test]
fn label_charset_all_bytes() {
    for b in 0u16..=255 {
        let b = b as u8;
        let mut buf = [0u8; 512];
        buf[0] = 1;
        buf[1] = b;
        buf[2] = 0;
        buf[4] = 1;
        buf[6] = 1;
        let mut cursor = UdpBuffer::new(buf);
        let r = cursor.unpack_domain(false);
        let valid = b.is_ascii_alphanumeric() || b == b'-';
        if valid {
            let g = r.unwrap();
            assert_eq!(g.domain, vec![String::from_utf8(vec![b]).unwrap()]);
        } else {
            assert_eq!(r.unwrap_err(), UnpackError::Parse(ParseError::SectionError));
        }
    }
}

// A self-referential compression pointer must fail with a jump error rather
// than loop.
#[test]
fn pointer_cycle_fails_with_jump_error() {
    let mut buf = [0u8; 512];
    buf[12] = 0xC0;
    buf[13] = 12;
    let mut cursor = UdpBuffer::new(buf);
    cursor.seek(12).unwrap();
    let r = cursor.unpack_domain(false);
    assert_eq!(r.unwrap_err(), UnpackError::Parse(ParseError::JumpError));
}

#[test]
fn cursor_errors_carry_their_kind() {
    let buf = [0u8; 512];
    let mut cursor = UdpBuffer::new(buf);
    assert_eq!(cursor.seek(512).unwrap_err(), UdpBufferError::Seek { index: 512 });
    cursor.seek(511).unwrap();
    assert_eq!(cursor.get_u16().unwrap_err(), UdpBufferError::EndOfBuffer);
    cursor.seek(511).unwrap();
    cursor.read().unwrap();
    assert_eq!(cursor.read().unwrap_err(), UdpBufferError::EndOfBuffer);
    assert_eq!(cursor.peek().unwrap_err(), UdpBufferError::EndOfBuffer);
}

// TTL bytes combine as standard big-endian 32-bit.
#[test]
fn get_u32_is_big_endian() {
    let mut buf = [0u8; 512];
    buf[0] = 0x89;
    buf[1] = 0xAB;
    buf[2] = 0xFF;
    buf[3] = 0xDB;
    let mut cursor = UdpBuffer::new(buf);
    assert_eq!(cursor.get_u32().unwrap(), 0x89ABFFDB);
}

// An answer record whose resource-data length runs past the buffer fails the
// whole message.
#[test]
fn truncated_resource_data_fails() {
    let mut buf = [0u8; 512];
    buf[1] = 0x01;
    buf[7] = 1; // one answer record
    buf[12] = 1;
    buf[13] = b'a';
    buf[14] = 0;
    buf[16] = 1; // type A
    buf[18] = 1; // class IN
    // TTL = 0, then a resource-data length far past the buffer
    buf[23] = 0xFF;
    buf[24] = 0xFF;
    let cursor = UdpBuffer::new(buf);
    let r = cursor.unpack();
    assert_eq!(r.unwrap_err(), UnpackError::Parse(ParseError::SectionError));
}

// A question-section failure is tolerated: the header comes back with no
// sections at all.
#[test]
fn question_failure_is_tolerated() {
    let mut buf = [0u8; 512];
    buf[1] = 0x02;
    buf[5] = 1; // one question record
    buf[12] = 1;
    buf[13] = b'!'; // invalid label byte
    buf[14] = 0;
    let cursor = UdpBuffer::new(buf);
    let (hdr, sections) = cursor.unpack().unwrap();
    assert_eq!(hdr.counts().qdcount(), 1);
    assert!(sections.iter().all(|s| s.is_none()));
}

// A record re-encoded to literal labels decodes back to itself.
#[test]
fn group_encode_decode_round_trip() {
    let group = SectionGroup::new(
        vec!["www".to_string(), "example-1".to_string(), "com".to_string()],
        Type::Cname,
        Class::Ch,
        Some((0x01020304, 3, vec![9, 8, 7])),
    );
    let bytes = group.try_into_bytes().unwrap();
    let mut buf = [0u8; 512];
    buf[..bytes.len()].copy_from_slice(&bytes);
    let mut cursor = UdpBuffer::new(buf);
    let decoded = cursor.unpack_domain(true).unwrap();
    assert_eq!(decoded, group);
}
