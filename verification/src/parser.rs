//! A flat, slice-based header parser kept alongside the cursor-based decoder:
//! one struct with every header field side by side.
use crate::error::ParseError;
use crate::parser::header_types::p_aa_value;
use crate::parser::header_types::p_opcode_value;
use crate::parser::header_types::p_rcode_value;
use crate::parser::header_types::p_rd_value;
use crate::parser::header_types::p_rs_value;
use crate::parser::header_types::p_tc_value;
use crate::parser::header_types::qr_ind_value;
use crate::parser::header_types::spec_p_aa_decode;
use crate::parser::header_types::spec_p_opcode_decode;
use crate::parser::header_types::spec_p_rcode_decode;
use crate::parser::header_types::spec_p_rd_decode;
use crate::parser::header_types::spec_p_rs_decode;
use crate::parser::header_types::spec_p_tc_decode;
use crate::parser::header_types::spec_qr_ind_decode;
use crate::parser::header_types::AuthAnswer;
use crate::parser::header_types::OpCode;
use crate::parser::header_types::QrIndicator;
use crate::parser::header_types::RecursionDesired;
use crate::parser::header_types::RecursionStatus;
use crate::parser::header_types::ResponseCode;
use crate::parser::header_types::Truncation;
use vstd::prelude::*;

pub mod answer;
pub mod header_types;
pub mod question;
pub mod section;

verus! {

/// A decoded header with every field flattened out.
#[derive(Debug, Clone, Copy, PartialEq, Eq, Structural)]
pub struct DnsHeader {
    pub id: u16,
    pub qr: QrIndicator,
    pub opcode: OpCode,
    pub aa: AuthAnswer,
    pub tc: Truncation,
    pub rd: RecursionDesired,
    pub rs: RecursionStatus,
    pub reserved: u8,
    pub rcode: ResponseCode,
    pub qdcount: u16,
    pub ancount: u16,
    pub nscount: u16,
    pub arcount: u16,
}

/// The 12 wire bytes of a flat header; a reserved field wider than three bits
/// is clipped to them.
pub open spec fn spec_pheader_bytes(h: DnsHeader) -> Seq<u8> {
    seq![
        ((h.id >> 8) & 0xFF) as u8,
        (h.id & 0xFF) as u8,
        p_rd_value(h.rd) | ((p_tc_value(h.tc) << 1) & 0x02) | ((p_aa_value(h.aa) << 2) & 0x04) | ((
        p_opcode_value(h.opcode) << 3) & 0x78) | ((qr_ind_value(h.qr) << 7) & 0x80),
        p_rcode_value(h.rcode) | ((h.reserved << 4) & 0x70) | ((p_rs_value(h.rs) << 7) & 0x80),
        ((h.qdcount >> 8) & 0xFF) as u8,
        (h.qdcount & 0xFF) as u8,
        ((h.ancount >> 8) & 0xFF) as u8,
        (h.ancount & 0xFF) as u8,
        ((h.nscount >> 8) & 0xFF) as u8,
        (h.nscount & 0xFF) as u8,
        ((h.arcount >> 8) & 0xFF) as u8,
        (h.arcount & 0xFF) as u8,
    ]
}

/// Decoding of a byte slice as a flat header: fails on fewer than 12 bytes,
/// and otherwise exactly when the response-code bits name a reserved code.
pub open spec fn spec_pheader_decode(b: Seq<u8>) -> Result<DnsHeader, ParseError> {
    if b.len() < 12 {
        Err(ParseError::ConversionError)
    } else {
        match spec_p_rcode_decode(b[3] & 0x0F) {
            Err(e) => Err(e),
            Ok(rcode) => match (
                spec_p_rd_decode(b[2] & 0x01),
                spec_p_tc_decode((b[2] & 0x02) >> 1),
                spec_p_aa_decode((b[2] & 0x04) >> 2),
                spec_p_opcode_decode((b[2] & 0x78) >> 3),
                spec_qr_ind_decode((b[2] & 0x80) >> 7),
                spec_p_rs_decode((b[3] & 0x80) >> 7),
            ) {
                (Ok(rd), Ok(tc), Ok(aa), Ok(opcode), Ok(qr), Ok(rs)) => Ok(
                    DnsHeader {
                        id: crate::header::spec_u16_from_bytes(b[0], b[1]),
                        qr,
                        opcode,
                        aa,
                        tc,
                        rd,
                        rs,
                        reserved: (b[3] & 0x70) >> 4,
                        rcode,
                        qdcount: crate::header::spec_u16_from_bytes(b[4], b[5]),
                        ancount: crate::header::spec_u16_from_bytes(b[6], b[7]),
                        nscount: crate::header::spec_u16_from_bytes(b[8], b[9]),
                        arcount: crate::header::spec_u16_from_bytes(b[10], b[11]),
                    },
                ),
                _ => Err(ParseError::ConversionError),
            },
        }
    }
}

impl DnsHeader {
    pub fn new(
        id: u16,
        qr: QrIndicator,
        opcode: OpCode,
        aa: AuthAnswer,
        tc: Truncation,
        rd: RecursionDesired,
        rs: RecursionStatus,
        reserved: u8,
        rcode: ResponseCode,
        qdcount: u16,
        ancount: u16,
        nscount: u16,
        arcount: u16,
    ) -> (r: Self)
        ensures
            r == (DnsHeader {
                id,
                qr,
                opcode,
                aa,
                tc,
                rd,
                rs,
                reserved,
                rcode,
                qdcount,
                ancount,
                nscount,
                arcount,
            }),
    {
        Self { id, qr, opcode, aa, tc, rd, rs, reserved, rcode, qdcount, ancount, nscount, arcount }
    }

    pub fn id(&self) -> (r: &u16)
        ensures
            *r == self.id,
    {
        &self.id
    }

    pub fn qr(&self) -> (r: &QrIndicator)
        ensures
            *r == self.qr,
    {
        &self.qr
    }

    pub fn opcode(&self) -> (r: &OpCode)
        ensures
            *r == self.opcode,
    {
        &self.opcode
    }

    pub fn auth_answer(&self) -> (r: &AuthAnswer)
        ensures
            *r == self.aa,
    {
        &self.aa
    }

    pub fn truncation(&self) -> (r: &Truncation)
        ensures
            *r == self.tc,
    {
        &self.tc
    }

    pub fn recursion_desired(&self) -> (r: &RecursionDesired)
        ensures
            *r == self.rd,
    {
        &self.rd
    }

    pub fn recursion_status(&self) -> (r: &RecursionStatus)
        ensures
            *r == self.rs,
    {
        &self.rs
    }

    pub fn reserved(&self) -> (r: &u8)
        ensures
            *r == self.reserved,
    {
        &self.reserved
    }

    pub fn rcode(&self) -> (r: &ResponseCode)
        ensures
            *r == self.rcode,
    {
        &self.rcode
    }

    pub fn qdcount(&self) -> (r: &u16)
        ensures
            *r == self.qdcount,
    {
        &self.qdcount
    }

    pub fn ancount(&self) -> (r: &u16)
        ensures
            *r == self.ancount,
    {
        &self.ancount
    }

    pub fn nscount(&self) -> (r: &u16)
        ensures
            *r == self.nscount,
    {
        &self.nscount
    }

    pub fn arcount(&self) -> (r: &u16)
        ensures
            *r == self.arcount,
    {
        &self.arcount
    }

    /// Decode a flat header from the first 12 bytes of a slice.
    pub fn try_from(value: &[u8]) -> (r: Result<Self, ParseError>)
        ensures
            r == spec_pheader_decode(value@),
    {
        if value.len() < 12 {
            Err(ParseError::ConversionError)
        } else {
            let id = ((value[0] as u16) << 8) | (value[1] as u16);
            let first = value[2];
            let second = value[3];
            proof {
                assert((first & 0x01) <= 1 && (first & 0x02) >> 1 <= 1 && (first & 0x04) >> 2 <= 1
                    && (first & 0x78) >> 3 <= 15 && (first & 0x80) >> 7 <= 1 && (second & 0x0F)
                    <= 15 && (second & 0x70) >> 4 < 8 && (second & 0x80) >> 7 <= 1) by (bit_vector);
            }
            let rd = match RecursionDesired::try_from(first & 0b0000_0001) {
                Ok(v) => v,
                Err(e) => {
                    return Err(e);
                },
            };
            let tc = match Truncation::try_from((first & 0b0000_0010) >> 1) {
                Ok(v) => v,
                Err(e) => {
                    return Err(e);
                },
            };
            let aa = match AuthAnswer::try_from((first & 0b0000_0100) >> 2) {
                Ok(v) => v,
                Err(e) => {
                    return Err(e);
                },
            };
            let opcode = match OpCode::try_from((first & 0b0111_1000) >> 3) {
                Ok(v) => v,
                Err(e) => {
                    return Err(e);
                },
            };
            let qr = match QrIndicator::try_from((first & 0b1000_0000) >> 7) {
                Ok(v) => v,
                Err(e) => {
                    return Err(e);
                },
            };
            let rcode = match ResponseCode::try_from(second & 0b0000_1111) {
                Ok(v) => v,
                Err(e) => {
                    return Err(e);
                },
            };
            let reserved = (second & 0b0111_0000) >> 4;
            let rs = match RecursionStatus::try_from((second & 0b1000_0000) >> 7) {
                Ok(v) => v,
                Err(e) => {
                    return Err(e);
                },
            };
            let qdcount = ((value[4] as u16) << 8) | (value[5] as u16);
            let ancount = ((value[6] as u16) << 8) | (value[7] as u16);
            let nscount = ((value[8] as u16) << 8) | (value[9] as u16);
            let arcount = ((value[10] as u16) << 8) | (value[11] as u16);
            Ok(
                DnsHeader {
                    id,
                    qr,
                    opcode,
                    aa,
                    tc,
                    rd,
                    rs,
                    reserved,
                    rcode,
                    qdcount,
                    ancount,
                    nscount,
                    arcount,
                },
            )
        }
    }

    /// The 12 wire bytes of this header.
    pub fn to_bytes(&self) -> (r: [u8; 12])
        ensures
            r@ == spec_pheader_bytes(*self),
    {
        let b2 = self.rd.to_u8() | ((self.tc.to_u8() << 1) & 0b0000_0010) | ((self.aa.to_u8() << 2)
            & 0b0000_0100) | ((self.opcode.to_u8() << 3) & 0b0111_1000) | ((self.qr.to_u8() << 7)
            & 0b1000_0000);
        let b3 = self.rcode.to_u8() | ((self.reserved << 4) & 0b0111_0000) | ((self.rs.to_u8()
            << 7) & 0b1000_0000);
        let r = [
            ((self.id >> 8) & 0xFF) as u8,
            (self.id & 0xFF) as u8,
            b2,
            b3,
            ((self.qdcount >> 8) & 0xFF) as u8,
            (self.qdcount & 0xFF) as u8,
            ((self.ancount >> 8) & 0xFF) as u8,
            (self.ancount & 0xFF) as u8,
            ((self.nscount >> 8) & 0xFF) as u8,
            (self.nscount & 0xFF) as u8,
            ((self.arcount >> 8) & 0xFF) as u8,
            (self.arcount & 0xFF) as u8,
        ];
        proof {
            assert(r@ =~= spec_pheader_bytes(*self));
        }
        r
    }
}

/// Law: encoding a flat header whose reserved field fits its three bits and
/// decoding the bytes restores the header exactly.
pub proof fn lemma_pheader_round_trip(h: DnsHeader)
    requires
        h.reserved < 8,
    ensures
        spec_pheader_decode(spec_pheader_bytes(h)) == Ok::<DnsHeader, ParseError>(h),
{
    let b = spec_pheader_bytes(h);
    let d = p_rd_value(h.rd);
    let t = p_tc_value(h.tc);
    let a = p_aa_value(h.aa);
    let o = p_opcode_value(h.opcode);
    let q = qr_ind_value(h.qr);
    let c = p_rcode_value(h.rcode);
    let v = h.reserved;
    let s = p_rs_value(h.rs);
    let e2 = b[2];
    let e3 = b[3];
    assert(d <= 1 && t <= 1 && a <= 1 && o <= 3 && q <= 1 ==> ((d | ((t << 1) & 0x02) | ((a << 2)
        & 0x04) | ((o << 3) & 0x78) | ((q << 7) & 0x80)) & 0x01 == d && ((d | ((t << 1) & 0x02) | ((
    a << 2) & 0x04) | ((o << 3) & 0x78) | ((q << 7) & 0x80)) & 0x02) >> 1 == t && ((d | ((t << 1)
        & 0x02) | ((a << 2) & 0x04) | ((o << 3) & 0x78) | ((q << 7) & 0x80)) & 0x04) >> 2 == a && ((
    d | ((t << 1) & 0x02) | ((a << 2) & 0x04) | ((o << 3) & 0x78) | ((q << 7) & 0x80)) & 0x78) >> 3
        == o && ((d | ((t << 1) & 0x02) | ((a << 2) & 0x04) | ((o << 3) & 0x78) | ((q << 7)
        & 0x80)) & 0x80) >> 7 == q)) by (bit_vector);
    assert(c <= 5 && v < 8 && s <= 1 ==> ((c | ((v << 4) & 0x70) | ((s << 7) & 0x80)) & 0x0F == c
        && ((c | ((v << 4) & 0x70) | ((s << 7) & 0x80)) & 0x70) >> 4 == v && ((c | ((v << 4)
        & 0x70) | ((s << 7) & 0x80)) & 0x80) >> 7 == s)) by (bit_vector);
    assert(e2 & 0x01 == d && (e2 & 0x02) >> 1 == t && (e2 & 0x04) >> 2 == a && (e2 & 0x78) >> 3 == o
        && (e2 & 0x80) >> 7 == q);
    assert(e3 & 0x0F == c && (e3 & 0x70) >> 4 == v && (e3 & 0x80) >> 7 == s);
    crate::header::lemma_u16_bytes_round_trip(h.id);
    crate::header::lemma_u16_bytes_round_trip(h.qdcount);
    crate::header::lemma_u16_bytes_round_trip(h.ancount);
    crate::header::lemma_u16_bytes_round_trip(h.nscount);
    crate::header::lemma_u16_bytes_round_trip(h.arcount);
}

/// Law: any 12 bytes that decode as a flat header re-encode to the same
/// bytes, provided their opcode bits are among the distinctly representable
/// values; a larger reserved opcode decodes to the one future-use variant and
/// cannot re-encode to its original bits.
pub proof fn lemma_pheader_bytes_round_trip(b: Seq<u8>)
    requires
        b.len() == 12,
        spec_pheader_decode(b) is Ok,
        (b[2] & 0x78) >> 3 <= 3,
    ensures
        spec_pheader_bytes(spec_pheader_decode(b)->Ok_0) == b,
{
    let h = spec_pheader_decode(b)->Ok_0;
    let e2 = b[2];
    let e3 = b[3];
    assert(p_rd_value(h.rd) == e2 & 0x01);
    assert(p_tc_value(h.tc) == (e2 & 0x02) >> 1);
    assert(p_aa_value(h.aa) == (e2 & 0x04) >> 2);
    assert((e2 & 0x78) >> 3 <= 3 ==> p_opcode_value(h.opcode) == (e2 & 0x78) >> 3);
    assert(qr_ind_value(h.qr) == (e2 & 0x80) >> 7);
    assert(p_rcode_value(h.rcode) == e3 & 0x0F);
    assert(h.reserved == (e3 & 0x70) >> 4);
    assert(p_rs_value(h.rs) == (e3 & 0x80) >> 7);
    assert(((e2 & 0x01) | ((((e2 & 0x02) >> 1) << 1) & 0x02) | ((((e2 & 0x04) >> 2) << 2) & 0x04)
        | ((((e2 & 0x78) >> 3) << 3) & 0x78) | ((((e2 & 0x80) >> 7) << 7) & 0x80)) == e2)
        by (bit_vector);
    assert(((e3 & 0x0F) | ((((e3 & 0x70) >> 4) << 4) & 0x70) | ((((e3 & 0x80) >> 7) << 7) & 0x80))
        == e3) by (bit_vector);
    crate::header::lemma_u16_split_round_trip(b[0], b[1]);
    crate::header::lemma_u16_split_round_trip(b[4], b[5]);
    crate::header::lemma_u16_split_round_trip(b[6], b[7]);
    crate::header::lemma_u16_split_round_trip(b[8], b[9]);
    crate::header::lemma_u16_split_round_trip(b[10], b[11]);
    assert(spec_pheader_bytes(h) =~= b);
}

} // verus!
