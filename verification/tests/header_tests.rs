use dns_starter_rust::error::ParseError;
use dns_starter_rust::header::AuthAnswer;
use dns_starter_rust::header::DnsHeader;
use dns_starter_rust::header::HeaderSecondRowFirstHalf;
use dns_starter_rust::header::HeaderSecondRowSecondHalf;
use dns_starter_rust::header::OpCode;
use dns_starter_rust::header::QueryResponse;
use dns_starter_rust::header::RecursionAvailablity;
use dns_starter_rust::header::RecursionDesired;
use dns_starter_rust::header::ResponseCode;
use dns_starter_rust::header::SectionCount;
use dns_starter_rust::header::Truncation;
use dns_starter_rust::buffer::UdpBuffer;

#[test]
fn test_conversion() {
    let a = Truncation::NotTruncated as u8;
    let trunc = Truncation::try_from(a).unwrap();
    assert_eq!(Truncation::NotTruncated, trunc);
}

#[test]
fn test_conversion_section_count() {
    let a = SectionCount::new(0x7FAB, 0x33AB, 0xFFFF, 0xFFFF).to_bytes();
    assert_eq!(a, [0x7F, 0xAB, 0x33, 0xAB, 0xFF, 0xFF, 0xFF, 0xFF])
}

#[test]
fn test_dns_header_conversion() {
    let hdr = DnsHeader::new(
        0x7f3b,
        HeaderSecondRowFirstHalf::new(
            QueryResponse::Query,
            OpCode::Query,
            AuthAnswer::NotAuthoritative,
            Truncation::Truncated,
            RecursionDesired::IWantRecursion,
        ),
        HeaderSecondRowSecondHalf::new(
            RecursionAvailablity::RecursionAvailable,
            2,
            ResponseCode::NoError,
        )
        .unwrap(),
        SectionCount::new(1, 0, 0, 0),
    );
    let hdr = hdr.to_bytes();
    assert_eq!(
        hdr,
        [
            0x7f,
            0x3b,
            0b00000011,
            0b1010_0000,
            0x0,
            0x1,
            0x0,
            0x0,
            0x0,
            0x0,
            0x0,
            0x0
        ]
    );
}

// Reserved-field invariant: values 0-7 construct, 8 and above fail with the
// overflow error carrying the value.
#[test]
fn reserved_field_bounds() {
    for reserved in 0u16..=255 {
        let reserved = reserved as u8;
        let r = HeaderSecondRowSecondHalf::new(
            RecursionAvailablity::NoRecursionAvailable,
            reserved,
            ResponseCode::NoError,
        );
        if reserved < 8 {
            let h = r.unwrap();
            assert_eq!(h.reserved(), reserved);
        } else {
            match r {
                Err(ParseError::OverflowError { found }) => assert_eq!(found, reserved),
                other => panic!("expected an overflow error, got {:?}", other),
            }
        }
    }
}

// Header round-trip: every valid field combination encodes to 12 bytes that
// decode back to the same header.
#[test]
fn header_round_trip_all_fields() {
    let qrs = [QueryResponse::Query, QueryResponse::Response];
    let ops = [OpCode::Query, OpCode::IQuery, OpCode::Status];
    let aas = [AuthAnswer::NotAuthoritative, AuthAnswer::Authoritative];
    let tcs = [Truncation::NotTruncated, Truncation::Truncated];
    let rds = [
        RecursionDesired::DontWantRecursion,
        RecursionDesired::IWantRecursion,
    ];
    let ras = [
        RecursionAvailablity::NoRecursionAvailable,
        RecursionAvailablity::RecursionAvailable,
    ];
    let rcodes = [
        ResponseCode::NoError,
        ResponseCode::Format,
        ResponseCode::ServerFailure,
        ResponseCode::Name,
        ResponseCode::NotImplemented,
        ResponseCode::Refused,
    ];
    for qr in qrs {
        for op in ops {
            for aa in aas {
                for tc in tcs {
                    for rd in rds {
                        for ra in ras {
                            for rcode in rcodes {
                                for reserved in [0u8, 3, 7] {
                                    let hdr = DnsHeader::new(
                                        0xBEEF,
                                        HeaderSecondRowFirstHalf::new(qr, op, aa, tc, rd),
                                        HeaderSecondRowSecondHalf::new(ra, reserved, rcode)
                                            .unwrap(),
                                        SectionCount::new(1, 2, 3, 4),
                                    );
                                    let bytes = hdr.to_bytes();
                                    let mut buf = [0u8; 512];
                                    buf[..12].copy_from_slice(&bytes);
                                    let mut cursor = UdpBuffer::new(buf);
                                    let decoded = cursor.unpack_dns_header().unwrap();
                                    assert_eq!(decoded, hdr);
                                    assert_eq!(decoded.to_bytes(), bytes);
                                }
                            }
                        }
                    }
                }
            }
        }
    }
}

// Header round-trip, byte direction: any well-formed 12 header bytes decode
// and re-encode to the same bytes.
#[test]
fn header_round_trip_bytes() {
    let samples: [[u8; 12]; 4] = [
        [0x7F, 0x3B, 0x83, 0xA0, 0x00, 0x01, 0, 0, 0, 0, 0, 0],
        [0x00, 0x00, 0x00, 0x00, 0, 0, 0, 0, 0, 0, 0, 0],
        [0xFF, 0xFF, 0x97, 0x80, 0x54, 0x12, 0x34, 0x64, 0x55, 0x20, 0x01, 0x00],
        [0x12, 0x34, 0x05, 0xF2, 0, 1, 0, 2, 0, 3, 0, 4],
    ];
    for bytes in samples {
        let mut buf = [0u8; 512];
        buf[..12].copy_from_slice(&bytes);
        let mut cursor = UdpBuffer::new(buf);
        let decoded = cursor.unpack_dns_header().unwrap();
        assert_eq!(decoded.to_bytes(), bytes);
    }
}

#[test]
fn opcode_and_rcode_reserved_values() {
    assert_eq!(OpCode::try_from(3), Err(ParseError::UnimplementedError));
    assert_eq!(OpCode::try_from(15), Err(ParseError::UnimplementedError));
    assert_eq!(OpCode::try_from(16), Err(ParseError::ConversionError));
    assert_eq!(
        ResponseCode::try_from(6),
        Err(ParseError::UnimplementedError)
    );
    assert_eq!(
        ResponseCode::try_from(15),
        Err(ParseError::UnimplementedError)
    );
    assert_eq!(ResponseCode::try_from(99), Err(ParseError::ConversionError));
    assert_eq!(QueryResponse::try_from(2), Err(ParseError::ConversionError));
    assert_eq!(AuthAnswer::try_from(7), Err(ParseError::ConversionError));
}

#[test]
fn test_big_endian_convert_u32_to_u8_array() {
    let input = 0x89ABFFDB;
    assert_eq!(
        dns_starter_rust::big_endian_convert_u32_to_u8_array(input),
        [0x89, 0xAB, 0xFF, 0xDB]
    )
}

#[test]
fn test_big_endian_convert_u16_to_u8_array() {
    let input = 0x89AB;
    assert_eq!(
        dns_starter_rust::big_endian_convert_u16_to_u8_array(input),
        [0x89, 0xAB]
    )
}
