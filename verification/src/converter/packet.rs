//! One client exchange in flight: the context to answer it, the answers
//! gathered so far, and the final outgoing packet assembled from them.
use crate::header::header_wf;
use crate::header::spec_header_bytes;
use crate::header::AuthAnswer;
use crate::header::DnsHeader;
use crate::header::HeaderSecondRowFirstHalf;
use crate::header::HeaderSecondRowSecondHalf;
use crate::header::OpCode;
use crate::header::QueryResponse;
use crate::header::RecursionAvailablity;
use crate::header::RecursionDesired;
use crate::header::ResponseCode;
use crate::header::SectionCount;
use crate::header::Truncation;
use crate::section::spec_encode_group;
use crate::section::Section;
use crate::section::SectionGroup;
use crate::section::SectionGroupModel;
use vstd::prelude::*;

verus! {

/// The client context an exchange answers to: an opaque handle the caller
/// maps to the client's network address, the client's transaction id, and the
/// opcode and recursion-desired flag of the original query.
pub type PendingHeaderPacket = (u64, u16, OpCode, RecursionDesired);

/// A record can be re-encoded iff each of its labels fits a one-byte length.
pub open spec fn group_encodable(m: SectionGroupModel) -> bool {
    spec_encode_group(m) is Ok
}

/// The wire encodings of a run of records, concatenated in order.
pub open spec fn spec_encode_groups(gs: Seq<SectionGroupModel>) -> Seq<u8>
    recommends
        forall|i: int| 0 <= i < gs.len() ==> group_encodable(#[trigger] gs[i]),
    decreases gs.len(),
{
    if gs.len() == 0 {
        Seq::empty()
    } else {
        spec_encode_group(gs[0])->Ok_0 + spec_encode_groups(gs.drop_first())
    }
}

/// A finished outgoing datagram: header bytes, the question section passed
/// through byte-for-byte, then each answer record re-encoded.
#[derive(Debug, Clone)]
pub struct UdpPacket {
    pub raw: Vec<u8>,
}

impl UdpPacket {
    /// Assemble the packet for `addr_hdr`: its header's 12 bytes, the raw
    /// question-section bytes unchanged, then the answer records in order.
    pub fn new(addr_hdr: (u64, DnsHeader), qsection: Section, a_section_groups: Vec<SectionGroup>) -> (r: (
        Self,
        u64,
    ))
        requires
            header_wf(addr_hdr.1),
            forall|i: int|
                0 <= i < a_section_groups@.len() ==> group_encodable(
                    #[trigger] a_section_groups@[i].model(),
                ),
        ensures
            r.1 == addr_hdr.0,
            r.0.raw@ == spec_header_bytes(addr_hdr.1) + qsection.raw_domain@ + spec_encode_groups(
                a_section_groups@.map_values(|g: SectionGroup| g.model()),
            ),
    {
        let (addr, hdr) = (addr_hdr.0, addr_hdr.1);
        let hb = hdr.to_bytes();
        let mut raw: Vec<u8> = Vec::new();
        raw.push(hb[0]);
        raw.push(hb[1]);
        raw.push(hb[2]);
        raw.push(hb[3]);
        raw.push(hb[4]);
        raw.push(hb[5]);
        raw.push(hb[6]);
        raw.push(hb[7]);
        raw.push(hb[8]);
        raw.push(hb[9]);
        raw.push(hb[10]);
        raw.push(hb[11]);
        proof {
            assert(raw@ =~= spec_header_bytes(hdr));
        }
        raw.extend_from_slice(qsection.raw_domain.as_slice());
        let ghost base = spec_header_bytes(hdr) + qsection.raw_domain@;
        proof {
            assert(raw@ =~= base);
        }
        let ghost models = a_section_groups@.map_values(|g: SectionGroup| g.model());
        let mut i: usize = 0;
        proof {
            assert(models.skip(0) =~= models);
        }
        while i < a_section_groups.len()
            invariant
                0 <= i <= a_section_groups.len(),
                models == a_section_groups@.map_values(|g: SectionGroup| g.model()),
                models.len() == a_section_groups@.len(),
                forall|k: int|
                    0 <= k < models.len() ==> group_encodable(#[trigger] models[k]),
                raw@ + spec_encode_groups(models.skip(i as int)) == base + spec_encode_groups(
                    models,
                ),
            decreases a_section_groups.len() - i,
        {
            let ghost tail = models.skip(i as int);
            proof {
                assert(tail[0] == models[i as int]);
                assert(tail.drop_first() =~= models.skip(i + 1));
            }
            let g = &a_section_groups[i];
            match g.try_into_bytes() {
                Ok(bytes) => {
                    let ghost before = raw@;
                    raw.extend_from_slice(bytes.as_slice());
                    proof {
                        assert(spec_encode_groups(tail) == spec_encode_group(models[i as int])->Ok_0
                            + spec_encode_groups(models.skip(i + 1)));
                        assert(raw@ + spec_encode_groups(models.skip(i + 1)) =~= before
                            + spec_encode_groups(tail));
                    }
                },
                Err(_e) => {
                    proof {
                        assert(false);
                    }
                },
            }
            i = i + 1;
        }
        proof {
            assert(models.skip(models.len() as int) =~= Seq::<SectionGroupModel>::empty());
            assert(raw@ + Seq::<u8>::empty() =~= raw@);
        }
        (UdpPacket { raw }, addr)
    }

    /// The datagram's bytes, ready to send.
    pub fn into_bytes(self) -> (r: Vec<u8>)
        ensures
            r@ == self.raw@,
    {
        self.raw
    }
}

/// One client exchange: its context, the response code chosen from the
/// opcode, the number of forwarded sub-queries, the original question section
/// and the answers gathered so far.
#[derive(Debug)]
pub struct PendingPacket {
    pub addr_hdr: PendingHeaderPacket,
    pub rcode: ResponseCode,
    pub capacity: usize,
    pub qsection: Section,
    pub a_section_groups: Vec<SectionGroup>,
}

/// The response code an exchange is created with: only plain queries are
/// serviced; any other opcode is answered as not implemented.
pub open spec fn spec_rcode_for_opcode(op: OpCode) -> ResponseCode {
    match op {
        OpCode::Query => ResponseCode::NoError,
        _ => ResponseCode::NotImplemented,
    }
}

/// The models of the answers an exchange has gathered, in arrival order.
pub open spec fn spec_answers_model(p: PendingPacket) -> Seq<SectionGroupModel> {
    p.a_section_groups@.map_values(|g: SectionGroup| g.model())
}

/// The header of the final outgoing packet: a response with the original
/// opcode, recursion-desired flag and transaction id, not authoritative, not
/// truncated, no recursion available, the pre-selected response code, and
/// counts naming the questions echoed and `ancount` answers.
pub open spec fn spec_response_header_for(p: PendingPacket, ancount: nat) -> DnsHeader {
    DnsHeader {
        txid: p.addr_hdr.1,
        hdr_sr_fh: HeaderSecondRowFirstHalf {
            qr: QueryResponse::Response,
            opcode: p.addr_hdr.2,
            aa: AuthAnswer::NotAuthoritative,
            tc: Truncation::NotTruncated,
            rd: p.addr_hdr.3,
        },
        hdr_sr_sh: HeaderSecondRowSecondHalf {
            ra: RecursionAvailablity::NoRecursionAvailable,
            reserved: 0,
            rcode: p.rcode,
        },
        counts: SectionCount {
            qdcount: p.qsection.groups@.len() as u16,
            ancount: ancount as u16,
            nscount: 0,
            arcount: 0,
        },
    }
}

/// The exact bytes of the final outgoing packet for exchange `p` once its
/// gathered answers are `answers`: the response header, the question-section
/// bytes unchanged, then every answer re-encoded in order.
pub open spec fn spec_assembled_bytes(p: PendingPacket, answers: Seq<SectionGroupModel>) -> Seq<
    u8,
> {
    spec_header_bytes(spec_response_header_for(p, answers.len())) + p.qsection.raw_domain@
        + spec_encode_groups(answers)
}

/// Law: the assembled response opens with the client's transaction id, names
/// the number of gathered answers in its answer count, and carries the
/// original question-section bytes unchanged right after the header.
pub proof fn lemma_assembled_layout(p: PendingPacket, answers: Seq<SectionGroupModel>)
    requires
        p.qsection.groups@.len() <= 0xFFFF,
        answers.len() <= 0xFFFF,
    ensures
        ({
            let b = spec_assembled_bytes(p, answers);
            let q = p.qsection.raw_domain@;
            &&& b.len() == 12 + q.len() + spec_encode_groups(answers).len()
            &&& crate::header::spec_u16_from_bytes(b[0], b[1]) == p.addr_hdr.1
            &&& crate::header::spec_u16_from_bytes(b[4], b[5]) == p.qsection.groups@.len()
            &&& crate::header::spec_u16_from_bytes(b[6], b[7]) == answers.len()
            &&& b.subrange(12, 12 + q.len() as int) == q
        }),
{
    let hdr = spec_response_header_for(p, answers.len());
    let hb = spec_header_bytes(hdr);
    let b = spec_assembled_bytes(p, answers);
    let q = p.qsection.raw_domain@;
    assert(hb.len() == 12);
    crate::header::lemma_u16_bytes_round_trip(hdr.txid);
    crate::header::lemma_u16_bytes_round_trip(hdr.counts.qdcount);
    crate::header::lemma_u16_bytes_round_trip(hdr.counts.ancount);
    assert(b[0] == hb[0] && b[1] == hb[1] && b[4] == hb[4] && b[5] == hb[5] && b[6] == hb[6] && b[7]
        == hb[7]);
    assert(b.subrange(12, 12 + q.len() as int) =~= q);
}

impl PendingPacket {
    /// A fresh exchange: no answers yet, the response code fixed by the
    /// opcode.
    pub fn new(addr_hdr: PendingHeaderPacket, capacity: usize, qsection: Section) -> (r: Self)
        ensures
            r.addr_hdr == addr_hdr,
            r.rcode == spec_rcode_for_opcode(addr_hdr.2),
            r.capacity == capacity,
            r.qsection == qsection,
            r.a_section_groups@.len() == 0,
    {
        let rcode = match addr_hdr.2 {
            OpCode::Query => ResponseCode::NoError,
            _ => ResponseCode::NotImplemented,
        };
        PendingPacket { addr_hdr, rcode, capacity, qsection, a_section_groups: Vec::new() }
    }

    /// The finished outgoing packet: the response header, the question bytes
    /// unchanged, and every gathered answer in arrival order.
    pub fn into_packet(self) -> (r: (UdpPacket, u64))
        requires
            self.qsection.groups@.len() <= 0xFFFF,
            self.a_section_groups@.len() <= 0xFFFF,
            forall|i: int|
                0 <= i < self.a_section_groups@.len() ==> group_encodable(
                    #[trigger] self.a_section_groups@[i].model(),
                ),
        ensures
            r.1 == self.addr_hdr.0,
            r.0.raw@ == spec_assembled_bytes(self, spec_answers_model(self)),
    {
        let (socket_addr, txid, opcode, rd) = self.addr_hdr;
        let rcode = self.rcode;
        let qsection = self.qsection;
        let a_section_groups = self.a_section_groups;
        let hdr_sr_fh = HeaderSecondRowFirstHalf::new(
            QueryResponse::Response,
            opcode,
            AuthAnswer::NotAuthoritative,
            Truncation::NotTruncated,
            rd,
        );
        let hdr_sr_sh = HeaderSecondRowSecondHalf {
            ra: RecursionAvailablity::NoRecursionAvailable,
            reserved: 0,
            rcode,
        };
        let counts = SectionCount::new(
            qsection.groups.len() as u16,
            a_section_groups.len() as u16,
            0,
            0,
        );
        let hdr = DnsHeader::new(txid, hdr_sr_fh, hdr_sr_sh, counts);
        UdpPacket::new((socket_addr, hdr), qsection, a_section_groups)
    }

    /// Record one more answer; reports whether the exchange is now complete.
    pub fn insert_section_group(&mut self, section_group: SectionGroup) -> (full: bool)
        requires
            old(self).a_section_groups@.len() < old(self).capacity,
        ensures
            final(self).a_section_groups@ == old(self).a_section_groups@.push(section_group),
            final(self).addr_hdr == old(self).addr_hdr,
            final(self).rcode == old(self).rcode,
            final(self).capacity == old(self).capacity,
            final(self).qsection == old(self).qsection,
            full == (final(self).a_section_groups@.len() == final(self).capacity),
    {
        self.a_section_groups.push(section_group);
        self.a_section_groups.len() == self.capacity
    }
}

} // verus!
