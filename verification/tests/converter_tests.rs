use dns_starter_rust::buffer::UdpBuffer;
use dns_starter_rust::converter::packet::PendingPacket;
use dns_starter_rust::converter::transcribe::Transcriber;
use dns_starter_rust::error::ParseError;
use dns_starter_rust::header::OpCode;
use dns_starter_rust::header::RecursionDesired;
use dns_starter_rust::section::qsection::QClass;
use dns_starter_rust::section::qsection::QType;
use dns_starter_rust::section::Class;
use dns_starter_rust::section::Section;
use dns_starter_rust::section::SectionGroup;
use dns_starter_rust::section::Type;

fn answer_group(name: &str) -> SectionGroup {
    SectionGroup::new(
        vec![name.to_string()],
        Type::A,
        Class::In,
        Some((0x000000FF, 4, vec![76, 76, 21, 21])),
    )
}

// Forwarding fan-out/fan-in: a two-question query registers two distinct
// transaction ids; the first answer yields nothing, the second yields one
// assembled packet whose answer count is 2 and whose question-section bytes
// are the original bytes unchanged.
#[test]
fn fan_out_fan_in() {
    let mut buf = [0u8; 512];
    // a query with two question records: "ab" and "cd"
    buf[0] = 0x12;
    buf[1] = 0x34;
    buf[2] = 0x01;
    buf[5] = 2;
    let q = [
        2, b'a', b'b', 0, 0, 1, 0, 1, // ab / A / IN
        2, b'c', b'd', 0, 0, 1, 0, 1, // cd / A / IN
    ];
    buf[12..12 + q.len()].copy_from_slice(&q);
    let cursor = UdpBuffer::new(buf);
    let (hdr, mut sections) = cursor.unpack().unwrap();
    let qsection: Section = sections[0].take().unwrap();
    let original_q_bytes = qsection.raw_domain.clone();
    assert_eq!(original_q_bytes, q.to_vec());

    let client_handle = 7u64;
    let pending = PendingPacket::new(
        (
            client_handle,
            hdr.txid(),
            *hdr.header_first_half().opcode(),
            *hdr.header_first_half().rd(),
        ),
        qsection.groups.len(),
        qsection,
    );
    let mut transcriber = Transcriber::new();
    let slot = transcriber.add_packet(pending);
    let first_txid = transcriber.txid();
    transcriber.insert(slot);
    let second_txid = transcriber.txid();
    transcriber.insert(slot);
    assert_ne!(first_txid, second_txid);

    let none = transcriber.receive_and_delete(first_txid, answer_group("ab"));
    assert!(none.is_none());
    let (packet, handle) = transcriber
        .receive_and_delete(second_txid, answer_group("cd"))
        .unwrap();
    assert_eq!(handle, client_handle);
    let raw = packet.into_bytes();
    // the response keeps the client's transaction id
    assert_eq!(&raw[0..2], &[0x12, 0x34]);
    // QDCOUNT 2, ANCOUNT 2, no authority or additional records
    assert_eq!(&raw[4..12], &[0, 2, 0, 2, 0, 0, 0, 0]);
    // the question-section bytes come back byte for byte
    assert_eq!(&raw[12..12 + q.len()], &q[..]);
    // then the two answers in arrival order
    let expected_answer = [
        2, b'a', b'b', 0, // name
        0, 1, 0, 1, // type and class
        0, 0, 0, 0xFF, // TTL
        0, 4, // resource-data length
        76, 76, 21, 21, // resource data
    ];
    assert_eq!(&raw[12 + q.len()..12 + q.len() + 18], &expected_answer[..]);
    assert_eq!(raw.len(), 12 + q.len() + 36);
}

// Transaction id wraparound: 65536 consecutive allocations hand out every id
// exactly once, in order, and the counter steps from 0xFFFF back to 0.
#[test]
fn txid_wraparound() {
    let mut transcriber = Transcriber::new();
    let empty_q = Section::new(Vec::new(), Vec::new());
    for i in 0u32..65536 {
        if i % 2 == 0 {
            let pending = PendingPacket::new(
                (0, 0, OpCode::Query, RecursionDesired::DontWantRecursion),
                2,
                empty_q.clone(),
            );
            transcriber.add_packet(pending);
        }
        let slot = (i / 2) as usize;
        assert_eq!(transcriber.txid(), (i & 0xFFFF) as u16);
        transcriber.insert(slot);
    }
    assert_eq!(transcriber.txid(), 0);
}

#[test]
fn opcode_other_than_query_preselects_not_implemented() {
    let q = Section::new(Vec::new(), Vec::new());
    let p = PendingPacket::new(
        (1, 9, OpCode::Status, RecursionDesired::IWantRecursion),
        1,
        q,
    );
    let mut p = p;
    let _full = p.insert_section_group(answer_group("a"));
    let (packet, _handle) = p.into_packet();
    let raw = packet.into_bytes();
    // byte 3 carries RCODE "not implemented" (4) with no recursion available
    assert_eq!(raw[3], 4);
    // byte 2: a response with opcode Status, not authoritative, not
    // truncated, recursion desired
    assert_eq!(raw[2], 0b1001_0001);
}

#[test]
fn group_encoding_is_exact() {
    let g = answer_group("ab");
    let bytes = g.try_into_bytes().unwrap();
    assert_eq!(
        bytes,
        vec![2, b'a', b'b', 0, 0, 1, 0, 1, 0, 0, 0, 0xFF, 0, 4, 76, 76, 21, 21]
    );
}

#[test]
fn oversized_label_fails_encoding() {
    let long = "a".repeat(300);
    let g = SectionGroup::new(vec![long], Type::A, Class::In, None);
    assert_eq!(g.try_into_bytes().unwrap_err(), ParseError::ConversionError);
}

#[test]
fn question_type_and_class_codes() {
    assert_eq!(QType::try_from(252).unwrap(), QType::Axfr);
    assert_eq!(QType::try_from(255).unwrap(), QType::Any);
    assert_eq!(QType::try_from(1).unwrap(), QType::NormalType(Type::A));
    assert_eq!(QType::try_from(99).unwrap_err(), ParseError::UnimplementedError);
    assert_eq!(QClass::try_from(255).unwrap(), QClass::Any);
    assert_eq!(QClass::try_from(4).unwrap(), QClass::NormalType(Type::Mf));
    assert_eq!(Type::try_from(17).unwrap_err(), ParseError::UnimplementedError);
    assert_eq!(Class::try_from(5).unwrap_err(), ParseError::UnimplementedError);
}
