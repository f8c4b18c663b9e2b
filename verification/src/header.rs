//! The 12-byte DNS header: transaction id, two bit-packed flag bytes and the
//! four section counts, with byte-exact encoding and decoding.
use crate::error::ParseError;
use vstd::prelude::*;

verus! {

#[derive(Debug, Clone, Copy, PartialEq, Eq, Structural)]
pub enum QueryResponse {
    Query,
    Response,
}

#[derive(Debug, Clone, Copy, PartialEq, Eq, Structural)]
pub enum AuthAnswer {
    NotAuthoritative,
    Authoritative,
}

#[derive(Debug, Clone, Copy, PartialEq, Eq, Structural)]
pub enum Truncation {
    NotTruncated,
    Truncated,
}

#[derive(Debug, Clone, Copy, PartialEq, Eq, Structural)]
pub enum RecursionDesired {
    DontWantRecursion,
    IWantRecursion,
}

#[derive(Debug, Clone, Copy, PartialEq, Eq, Structural)]
pub enum RecursionAvailablity {
    NoRecursionAvailable,
    RecursionAvailable,
}

#[derive(Debug, Clone, Copy, PartialEq, Eq, Structural)]
pub enum OpCode {
    Query,
    IQuery,
    Status,
}

#[derive(Debug, Clone, Copy, PartialEq, Eq, Structural)]
pub enum ResponseCode {
    NoError,
    Format,
    ServerFailure,
    Name,
    NotImplemented,
    Refused,
}

pub open spec fn qr_value(v: QueryResponse) -> u8 {
    match v {
        QueryResponse::Query => 0,
        QueryResponse::Response => 1,
    }
}

pub open spec fn aa_value(v: AuthAnswer) -> u8 {
    match v {
        AuthAnswer::NotAuthoritative => 0,
        AuthAnswer::Authoritative => 1,
    }
}

pub open spec fn tc_value(v: Truncation) -> u8 {
    match v {
        Truncation::NotTruncated => 0,
        Truncation::Truncated => 1,
    }
}

pub open spec fn rd_value(v: RecursionDesired) -> u8 {
    match v {
        RecursionDesired::DontWantRecursion => 0,
        RecursionDesired::IWantRecursion => 1,
    }
}

pub open spec fn ra_value(v: RecursionAvailablity) -> u8 {
    match v {
        RecursionAvailablity::NoRecursionAvailable => 0,
        RecursionAvailablity::RecursionAvailable => 1,
    }
}

pub open spec fn opcode_value(v: OpCode) -> u8 {
    match v {
        OpCode::Query => 0,
        OpCode::IQuery => 1,
        OpCode::Status => 2,
    }
}

pub open spec fn rcode_value(v: ResponseCode) -> u8 {
    match v {
        ResponseCode::NoError => 0,
        ResponseCode::Format => 1,
        ResponseCode::ServerFailure => 2,
        ResponseCode::Name => 3,
        ResponseCode::NotImplemented => 4,
        ResponseCode::Refused => 5,
    }
}

/// Decoding of a single bit as a query/response flag: defined for 0 and 1.
pub open spec fn spec_qr_decode(value: u8) -> Result<QueryResponse, ParseError> {
    if value == 0 {
        Ok(QueryResponse::Query)
    } else if value == 1 {
        Ok(QueryResponse::Response)
    } else {
        Err(ParseError::ConversionError)
    }
}

pub open spec fn spec_aa_decode(value: u8) -> Result<AuthAnswer, ParseError> {
    if value == 0 {
        Ok(AuthAnswer::NotAuthoritative)
    } else if value == 1 {
        Ok(AuthAnswer::Authoritative)
    } else {
        Err(ParseError::ConversionError)
    }
}

pub open spec fn spec_tc_decode(value: u8) -> Result<Truncation, ParseError> {
    if value == 0 {
        Ok(Truncation::NotTruncated)
    } else if value == 1 {
        Ok(Truncation::Truncated)
    } else {
        Err(ParseError::ConversionError)
    }
}

pub open spec fn spec_rd_decode(value: u8) -> Result<RecursionDesired, ParseError> {
    if value == 0 {
        Ok(RecursionDesired::DontWantRecursion)
    } else if value == 1 {
        Ok(RecursionDesired::IWantRecursion)
    } else {
        Err(ParseError::ConversionError)
    }
}

pub open spec fn spec_ra_decode(value: u8) -> Result<RecursionAvailablity, ParseError> {
    if value == 0 {
        Ok(RecursionAvailablity::NoRecursionAvailable)
    } else if value == 1 {
        Ok(RecursionAvailablity::RecursionAvailable)
    } else {
        Err(ParseError::ConversionError)
    }
}

/// Opcodes 0-2 are defined; 3-15 are reserved for future use; anything larger
/// does not fit the four-bit field at all.
pub open spec fn spec_opcode_decode(value: u8) -> Result<OpCode, ParseError> {
    if value == 0 {
        Ok(OpCode::Query)
    } else if value == 1 {
        Ok(OpCode::IQuery)
    } else if value == 2 {
        Ok(OpCode::Status)
    } else if value <= 15 {
        Err(ParseError::UnimplementedError)
    } else {
        Err(ParseError::ConversionError)
    }
}

/// Response codes 0-5 are defined; 6-15 are reserved for future use; anything
/// larger does not fit the four-bit field at all.
pub open spec fn spec_rcode_decode(value: u8) -> Result<ResponseCode, ParseError> {
    if value == 0 {
        Ok(ResponseCode::NoError)
    } else if value == 1 {
        Ok(ResponseCode::Format)
    } else if value == 2 {
        Ok(ResponseCode::ServerFailure)
    } else if value == 3 {
        Ok(ResponseCode::Name)
    } else if value == 4 {
        Ok(ResponseCode::NotImplemented)
    } else if value == 5 {
        Ok(ResponseCode::Refused)
    } else if value <= 15 {
        Err(ParseError::UnimplementedError)
    } else {
        Err(ParseError::ConversionError)
    }
}

impl QueryResponse {
    pub fn try_from(value: u8) -> (r: Result<Self, ParseError>)
        ensures
            r == spec_qr_decode(value),
    {
        match value {
            0 => Ok(QueryResponse::Query),
            1 => Ok(QueryResponse::Response),
            _ => Err(ParseError::ConversionError),
        }
    }

    pub fn to_u8(&self) -> (r: u8)
        ensures
            r == qr_value(*self),
    {
        match self {
            QueryResponse::Query => 0,
            QueryResponse::Response => 1,
        }
    }
}

impl AuthAnswer {
    pub fn try_from(value: u8) -> (r: Result<Self, ParseError>)
        ensures
            r == spec_aa_decode(value),
    {
        match value {
            0 => Ok(AuthAnswer::NotAuthoritative),
            1 => Ok(AuthAnswer::Authoritative),
            _ => Err(ParseError::ConversionError),
        }
    }

    pub fn to_u8(&self) -> (r: u8)
        ensures
            r == aa_value(*self),
    {
        match self {
            AuthAnswer::NotAuthoritative => 0,
            AuthAnswer::Authoritative => 1,
        }
    }
}

impl Truncation {
    pub fn try_from(value: u8) -> (r: Result<Self, ParseError>)
        ensures
            r == spec_tc_decode(value),
    {
        match value {
            0 => Ok(Truncation::NotTruncated),
            1 => Ok(Truncation::Truncated),
            _ => Err(ParseError::ConversionError),
        }
    }

    pub fn to_u8(&self) -> (r: u8)
        ensures
            r == tc_value(*self),
    {
        match self {
            Truncation::NotTruncated => 0,
            Truncation::Truncated => 1,
        }
    }
}

impl RecursionDesired {
    pub fn try_from(value: u8) -> (r: Result<Self, ParseError>)
        ensures
            r == spec_rd_decode(value),
    {
        match value {
            0 => Ok(RecursionDesired::DontWantRecursion),
            1 => Ok(RecursionDesired::IWantRecursion),
            _ => Err(ParseError::ConversionError),
        }
    }

    pub fn to_u8(&self) -> (r: u8)
        ensures
            r == rd_value(*self),
    {
        match self {
            RecursionDesired::DontWantRecursion => 0,
            RecursionDesired::IWantRecursion => 1,
        }
    }
}

impl RecursionAvailablity {
    pub fn try_from(value: u8) -> (r: Result<Self, ParseError>)
        ensures
            r == spec_ra_decode(value),
    {
        match value {
            0 => Ok(RecursionAvailablity::NoRecursionAvailable),
            1 => Ok(RecursionAvailablity::RecursionAvailable),
            _ => Err(ParseError::ConversionError),
        }
    }

    pub fn to_u8(&self) -> (r: u8)
        ensures
            r == ra_value(*self),
    {
        match self {
            RecursionAvailablity::NoRecursionAvailable => 0,
            RecursionAvailablity::RecursionAvailable => 1,
        }
    }
}

impl OpCode {
    pub fn try_from(value: u8) -> (r: Result<Self, ParseError>)
        ensures
            r == spec_opcode_decode(value),
    {
        match value {
            0 => Ok(OpCode::Query),
            1 => Ok(OpCode::IQuery),
            2 => Ok(OpCode::Status),
            _ => {
                if 3 <= value && value <= 15 {
                    Err(ParseError::UnimplementedError)
                } else {
                    Err(ParseError::ConversionError)
                }
            },
        }
    }

    pub fn to_u8(&self) -> (r: u8)
        ensures
            r == opcode_value(*self),
    {
        match self {
            OpCode::Query => 0,
            OpCode::IQuery => 1,
            OpCode::Status => 2,
        }
    }
}

impl ResponseCode {
    pub fn try_from(value: u8) -> (r: Result<Self, ParseError>)
        ensures
            r == spec_rcode_decode(value),
    {
        match value {
            0 => Ok(ResponseCode::NoError),
            1 => Ok(ResponseCode::Format),
            2 => Ok(ResponseCode::ServerFailure),
            3 => Ok(ResponseCode::Name),
            4 => Ok(ResponseCode::NotImplemented),
            5 => Ok(ResponseCode::Refused),
            _ => {
                if 6 <= value && value <= 15 {
                    Err(ParseError::UnimplementedError)
                } else {
                    Err(ParseError::ConversionError)
                }
            },
        }
    }

    pub fn to_u8(&self) -> (r: u8)
        ensures
            r == rcode_value(*self),
    {
        match self {
            ResponseCode::NoError => 0,
            ResponseCode::Format => 1,
            ResponseCode::ServerFailure => 2,
            ResponseCode::Name => 3,
            ResponseCode::NotImplemented => 4,
            ResponseCode::Refused => 5,
        }
    }
}

/// Byte 2 of the wire header: QR(1) | Opcode(4) | AA(1) | TC(1) | RD(1).
#[derive(Debug, Clone, Copy, PartialEq, Eq, Structural)]
pub struct HeaderSecondRowFirstHalf {
    pub qr: QueryResponse,
    pub opcode: OpCode,
    pub aa: AuthAnswer,
    pub tc: Truncation,
    pub rd: RecursionDesired,
}

/// Byte 3 of the wire header: RA(1) | Reserved(3) | RCODE(4).
#[derive(Debug, Clone, Copy, PartialEq, Eq, Structural)]
pub struct HeaderSecondRowSecondHalf {
    pub ra: RecursionAvailablity,
    pub reserved: u8,
    pub rcode: ResponseCode,
}

/// The reserved field occupies exactly three bits.
pub open spec fn second_half_wf(h: HeaderSecondRowSecondHalf) -> bool {
    h.reserved < 8
}

/// The packed wire byte QR(1) | Opcode(4) | AA(1) | TC(1) | RD(1).
pub open spec fn spec_first_half_byte(h: HeaderSecondRowFirstHalf) -> u8 {
    (qr_value(h.qr) << 7) | (opcode_value(h.opcode) << 3) | (aa_value(h.aa) << 2) | (tc_value(h.tc)
        << 1) | rd_value(h.rd)
}

/// The packed wire byte RA(1) | Reserved(3) | RCODE(4).
pub open spec fn spec_second_half_byte(h: HeaderSecondRowSecondHalf) -> u8 {
    (ra_value(h.ra) << 7) | (h.reserved << 4) | rcode_value(h.rcode)
}

/// Field-wise decoding of wire byte 2; fails exactly when the opcode bits name
/// a reserved opcode.
pub open spec fn spec_first_half_decode(value: u8) -> Result<
    HeaderSecondRowFirstHalf,
    ParseError,
> {
    match spec_qr_decode((value & 0x80) >> 7) {
        Err(e) => Err(e),
        Ok(qr) => match spec_opcode_decode((value & 0x78) >> 3) {
            Err(e) => Err(e),
            Ok(opcode) => match spec_aa_decode((value & 0x04) >> 2) {
                Err(e) => Err(e),
                Ok(aa) => match spec_tc_decode((value & 0x02) >> 1) {
                    Err(e) => Err(e),
                    Ok(tc) => match spec_rd_decode(value & 0x01) {
                        Err(e) => Err(e),
                        Ok(rd) => Ok(HeaderSecondRowFirstHalf { qr, opcode, aa, tc, rd }),
                    },
                },
            },
        },
    }
}

/// Field-wise decoding of wire byte 3; fails exactly when the response-code
/// bits name a reserved code.
pub open spec fn spec_second_half_decode(value: u8) -> Result<
    HeaderSecondRowSecondHalf,
    ParseError,
> {
    match spec_ra_decode((value & 0x80) >> 7) {
        Err(e) => Err(e),
        Ok(ra) => match spec_rcode_decode(value & 0x0F) {
            Err(e) => Err(e),
            Ok(rcode) => Ok(
                HeaderSecondRowSecondHalf { ra, reserved: (value & 0x70) >> 4, rcode },
            ),
        },
    }
}

impl HeaderSecondRowSecondHalf {
    /// Construction rejects any reserved value that does not fit in three
    /// bits, with the offending value in the error.
    pub fn new(ra: RecursionAvailablity, reserved: u8, rcode: ResponseCode) -> (r: Result<
        Self,
        ParseError,
    >)
        ensures
            reserved < 8 ==> r == Ok::<Self, ParseError>(
                HeaderSecondRowSecondHalf { ra, reserved, rcode },
            ),
            reserved >= 8 ==> r == Err::<Self, ParseError>(
                ParseError::OverflowError { found: reserved },
            ),
            r is Ok ==> second_half_wf(r->Ok_0),
    {
        if reserved >= 8 {
            Err(ParseError::OverflowError { found: reserved })
        } else {
            Ok(Self { ra, reserved, rcode })
        }
    }

    pub fn ra(&self) -> (r: &RecursionAvailablity)
        ensures
            *r == self.ra,
    {
        &self.ra
    }

    pub fn reserved(&self) -> (r: u8)
        ensures
            r == self.reserved,
    {
        self.reserved
    }

    pub fn rcode(&self) -> (r: &ResponseCode)
        ensures
            *r == self.rcode,
    {
        &self.rcode
    }

    pub fn to_u8(&self) -> (r: u8)
        requires
            second_half_wf(*self),
        ensures
            r == spec_second_half_byte(*self),
    {
        let ra = self.ra.to_u8() << 7;
        let reserved = self.reserved << 4;
        let rcode = self.rcode.to_u8();
        ra | reserved | rcode
    }

    pub fn try_from(value: u8) -> (r: Result<Self, ParseError>)
        ensures
            r == spec_second_half_decode(value),
            r is Ok ==> second_half_wf(r->Ok_0),
    {
        let ra = (value & 0b1000_0000) >> 7;
        let reserved = (value & 0b0111_0000) >> 4;
        let rcode = value & 0b0000_1111;
        proof {
            assert((value & 0b1000_0000) >> 7 <= 1 && (value & 0b0111_0000) >> 4 < 8 && (value
                & 0b0000_1111) <= 15) by (bit_vector);
        }
        let ra = match RecursionAvailablity::try_from(ra) {
            Ok(v) => v,
            Err(e) => { return Err(e) },
        };
        let rcode = match ResponseCode::try_from(rcode) {
            Ok(v) => v,
            Err(e) => { return Err(e) },
        };
        match Self::new(ra, reserved, rcode) {
            Ok(v) => Ok(v),
            Err(e) => Err(e),
        }
    }
}

impl HeaderSecondRowFirstHalf {
    pub fn new(
        qr: QueryResponse,
        opcode: OpCode,
        aa: AuthAnswer,
        tc: Truncation,
        rd: RecursionDesired,
    ) -> (r: Self)
        ensures
            r == (HeaderSecondRowFirstHalf { qr, opcode, aa, tc, rd }),
    {
        Self { qr, opcode, aa, tc, rd }
    }

    pub fn qr(&self) -> (r: &QueryResponse)
        ensures
            *r == self.qr,
    {
        &self.qr
    }

    pub fn opcode(&self) -> (r: &OpCode)
        ensures
            *r == self.opcode,
    {
        &self.opcode
    }

    pub fn aa(&self) -> (r: &AuthAnswer)
        ensures
            *r == self.aa,
    {
        &self.aa
    }

    pub fn tc(&self) -> (r: &Truncation)
        ensures
            *r == self.tc,
    {
        &self.tc
    }

    pub fn rd(&self) -> (r: &RecursionDesired)
        ensures
            *r == self.rd,
    {
        &self.rd
    }

    pub fn to_u8(&self) -> (r: u8)
        ensures
            r == spec_first_half_byte(*self),
    {
        let qr = self.qr.to_u8();
        let opcode = self.opcode.to_u8();
        let aa = self.aa.to_u8();
        let tc = self.tc.to_u8();
        let rd = self.rd.to_u8();
        qr << 7 | opcode << 3 | aa << 2 | tc << 1 | rd
    }

    pub fn try_from(value: u8) -> (r: Result<Self, ParseError>)
        ensures
            r == spec_first_half_decode(value),
    {
        let qr = (value & 0b1000_0000) >> 7;
        let opcode = (value & 0b0111_1000) >> 3;
        let aa = (value & 0b0000_0100) >> 2;
        let tc = (value & 0b0000_0010) >> 1;
        let rd = value & 0b0000_0001;
        proof {
            assert((value & 0b1000_0000) >> 7 <= 1 && (value & 0b0111_1000) >> 3 <= 15 && (value
                & 0b0000_0100) >> 2 <= 1 && (value & 0b0000_0010) >> 1 <= 1 && (value
                & 0b0000_0001) <= 1) by (bit_vector);
        }
        let qr = match QueryResponse::try_from(qr) {
            Ok(v) => v,
            Err(e) => { return Err(e) },
        };
        let opcode = match OpCode::try_from(opcode) {
            Ok(v) => v,
            Err(e) => { return Err(e) },
        };
        let aa = match AuthAnswer::try_from(aa) {
            Ok(v) => v,
            Err(e) => { return Err(e) },
        };
        let tc = match Truncation::try_from(tc) {
            Ok(v) => v,
            Err(e) => { return Err(e) },
        };
        let rd = match RecursionDesired::try_from(rd) {
            Ok(v) => v,
            Err(e) => { return Err(e) },
        };
        Ok(Self::new(qr, opcode, aa, tc, rd))
    }
}

/// The four 16-bit record counts of the header, in wire order.
#[derive(Debug, Clone, Copy, PartialEq, Eq, Structural)]
pub struct SectionCount {
    pub qdcount: u16,
    pub ancount: u16,
    pub nscount: u16,
    pub arcount: u16,
}

/// The eight count bytes, each count big-endian.
pub open spec fn spec_counts_bytes(c: SectionCount) -> Seq<u8> {
    crate::spec_u16_be_bytes(c.qdcount) + crate::spec_u16_be_bytes(c.ancount)
        + crate::spec_u16_be_bytes(c.nscount) + crate::spec_u16_be_bytes(c.arcount)
}

impl SectionCount {
    pub fn new(qdcount: u16, ancount: u16, nscount: u16, arcount: u16) -> (r: Self)
        ensures
            r == (SectionCount { qdcount, ancount, nscount, arcount }),
    {
        Self { qdcount, ancount, nscount, arcount }
    }

    pub fn qdcount(&self) -> (r: u16)
        ensures
            r == self.qdcount,
    {
        self.qdcount
    }

    pub fn ancount(&self) -> (r: u16)
        ensures
            r == self.ancount,
    {
        self.ancount
    }

    pub fn nscount(&self) -> (r: u16)
        ensures
            r == self.nscount,
    {
        self.nscount
    }

    pub fn arcount(&self) -> (r: u16)
        ensures
            r == self.arcount,
    {
        self.arcount
    }

    pub fn to_bytes(&self) -> (r: [u8; 8])
        ensures
            r@ == spec_counts_bytes(*self),
    {
        let r = [
            ((self.qdcount >> 8) & 0xFF) as u8,
            (self.qdcount & 0xFF) as u8,
            ((self.ancount >> 8) & 0xFF) as u8,
            (self.ancount & 0xFF) as u8,
            ((self.nscount >> 8) & 0xFF) as u8,
            (self.nscount & 0xFF) as u8,
            ((self.arcount >> 8) & 0xFF) as u8,
            (self.arcount & 0xFF) as u8,
        ];
        proof {
            assert(r@ =~= spec_counts_bytes(*self));
        }
        r
    }
}

/// A whole decoded header: id, the two packed flag bytes and the counts.
#[derive(Debug, Clone, Copy, PartialEq, Eq, Structural)]
pub struct DnsHeader {
    pub txid: u16,
    pub hdr_sr_fh: HeaderSecondRowFirstHalf,
    pub hdr_sr_sh: HeaderSecondRowSecondHalf,
    pub counts: SectionCount,
}

pub open spec fn header_wf(h: DnsHeader) -> bool {
    second_half_wf(h.hdr_sr_sh)
}

/// The exact 12 wire bytes of a header.
pub open spec fn spec_header_bytes(h: DnsHeader) -> Seq<u8> {
    seq![
        ((h.txid >> 8) & 0xFF) as u8,
        (h.txid & 0xFF) as u8,
        spec_first_half_byte(h.hdr_sr_fh),
        spec_second_half_byte(h.hdr_sr_sh),
    ] + spec_counts_bytes(h.counts)
}

/// A big-endian 16-bit quantity from two bytes.
pub open spec fn spec_u16_from_bytes(hi: u8, lo: u8) -> u16 {
    ((hi as u16) << 8) | (lo as u16)
}

/// Field-wise decoding of the first 12 bytes of a buffer as a header.
pub open spec fn spec_header_decode(b: Seq<u8>) -> Result<DnsHeader, ParseError>
    recommends
        b.len() >= 12,
{
    match spec_first_half_decode(b[2]) {
        Err(e) => Err(e),
        Ok(fh) => match spec_second_half_decode(b[3]) {
            Err(e) => Err(e),
            Ok(sh) => Ok(
                DnsHeader {
                    txid: spec_u16_from_bytes(b[0], b[1]),
                    hdr_sr_fh: fh,
                    hdr_sr_sh: sh,
                    counts: SectionCount {
                        qdcount: spec_u16_from_bytes(b[4], b[5]),
                        ancount: spec_u16_from_bytes(b[6], b[7]),
                        nscount: spec_u16_from_bytes(b[8], b[9]),
                        arcount: spec_u16_from_bytes(b[10], b[11]),
                    },
                },
            ),
        },
    }
}

impl DnsHeader {
    pub fn new(
        txid: u16,
        hdr_sr_fh: HeaderSecondRowFirstHalf,
        hdr_sr_sh: HeaderSecondRowSecondHalf,
        counts: SectionCount,
    ) -> (r: Self)
        ensures
            r == (DnsHeader { txid, hdr_sr_fh, hdr_sr_sh, counts }),
    {
        DnsHeader { txid, hdr_sr_fh, hdr_sr_sh, counts }
    }

    pub fn txid(&self) -> (r: u16)
        ensures
            r == self.txid,
    {
        self.txid
    }

    pub fn header_first_half(&self) -> (r: &HeaderSecondRowFirstHalf)
        ensures
            *r == self.hdr_sr_fh,
    {
        &self.hdr_sr_fh
    }

    pub fn header_second_half(&self) -> (r: &HeaderSecondRowSecondHalf)
        ensures
            *r == self.hdr_sr_sh,
    {
        &self.hdr_sr_sh
    }

    pub fn counts(&self) -> (r: &SectionCount)
        ensures
            *r == self.counts,
    {
        &self.counts
    }

    pub fn to_bytes(&self) -> (r: [u8; 12])
        requires
            header_wf(*self),
        ensures
            r@ == spec_header_bytes(*self),
    {
        let c = self.counts.to_bytes();
        let r = [
            ((self.txid >> 8) & 0xFF) as u8,
            (self.txid & 0xFF) as u8,
            self.hdr_sr_fh.to_u8(),
            self.hdr_sr_sh.to_u8(),
            c[0],
            c[1],
            c[2],
            c[3],
            c[4],
            c[5],
            c[6],
            c[7],
        ];
        proof {
            assert(r@ =~= spec_header_bytes(*self));
        }
        r
    }
}

/// Law: packing wire byte 2 and decoding it restores every field.
pub proof fn lemma_first_half_round_trip(h: HeaderSecondRowFirstHalf)
    ensures
        spec_first_half_decode(spec_first_half_byte(h)) == Ok::<
            HeaderSecondRowFirstHalf,
            ParseError,
        >(h),
{
    let q = qr_value(h.qr);
    let o = opcode_value(h.opcode);
    let a = aa_value(h.aa);
    let t = tc_value(h.tc);
    let d = rd_value(h.rd);
    let e = spec_first_half_byte(h);
    assert(q <= 1 && o <= 2 && a <= 1 && t <= 1 && d <= 1 ==> ((((q << 7) | (o << 3) | (a << 2) | (
    t << 1) | d) & 0x80) >> 7 == q && (((q << 7) | (o << 3) | (a << 2) | (t << 1) | d) & 0x78) >> 3
        == o && (((q << 7) | (o << 3) | (a << 2) | (t << 1) | d) & 0x04) >> 2 == a && (((q << 7) | (
    o << 3) | (a << 2) | (t << 1) | d) & 0x02) >> 1 == t && ((q << 7) | (o << 3) | (a << 2) | (t
        << 1) | d) & 0x01 == d)) by (bit_vector);
    assert((e & 0x80) >> 7 == q && (e & 0x78) >> 3 == o && (e & 0x04) >> 2 == a && (e & 0x02) >> 1
        == t && e & 0x01 == d);
}

/// Law: packing wire byte 3 and decoding it restores every field, provided the
/// reserved field fits its three bits.
pub proof fn lemma_second_half_round_trip(h: HeaderSecondRowSecondHalf)
    requires
        second_half_wf(h),
    ensures
        spec_second_half_decode(spec_second_half_byte(h)) == Ok::<
            HeaderSecondRowSecondHalf,
            ParseError,
        >(h),
{
    let r = ra_value(h.ra);
    let v = h.reserved;
    let c = rcode_value(h.rcode);
    let e = spec_second_half_byte(h);
    assert(r <= 1 && v < 8 && c <= 5 ==> ((((r << 7) | (v << 4) | c) & 0x80) >> 7 == r && (((r
        << 7) | (v << 4) | c) & 0x70) >> 4 == v && ((r << 7) | (v << 4) | c) & 0x0F == c))
        by (bit_vector);
    assert((e & 0x80) >> 7 == r && (e & 0x70) >> 4 == v && e & 0x0F == c);
}

/// Law: decoding any wire byte 2 and packing the result reproduces the byte.
pub proof fn lemma_first_half_byte_round_trip(value: u8)
    requires
        spec_first_half_decode(value) is Ok,
    ensures
        spec_first_half_byte(spec_first_half_decode(value)->Ok_0) == value,
{
    let h = spec_first_half_decode(value)->Ok_0;
    assert(qr_value(h.qr) == (value & 0x80) >> 7);
    assert(opcode_value(h.opcode) == (value & 0x78) >> 3);
    assert(aa_value(h.aa) == (value & 0x04) >> 2);
    assert(tc_value(h.tc) == (value & 0x02) >> 1);
    assert(rd_value(h.rd) == value & 0x01);
    assert(((value & 0x80) >> 7 << 7) | ((value & 0x78) >> 3 << 3) | ((value & 0x04) >> 2 << 2) | ((
    value & 0x02) >> 1 << 1) | (value & 0x01) == value) by (bit_vector);
}

/// Law: decoding any wire byte 3 and packing the result reproduces the byte.
pub proof fn lemma_second_half_byte_round_trip(value: u8)
    requires
        spec_second_half_decode(value) is Ok,
    ensures
        spec_second_half_byte(spec_second_half_decode(value)->Ok_0) == value,
        second_half_wf(spec_second_half_decode(value)->Ok_0),
{
    let h = spec_second_half_decode(value)->Ok_0;
    assert(ra_value(h.ra) == (value & 0x80) >> 7);
    assert(h.reserved == (value & 0x70) >> 4);
    assert(rcode_value(h.rcode) == value & 0x0F);
    assert((value & 0x70) >> 4 < 8) by (bit_vector);
    assert(((value & 0x80) >> 7 << 7) | ((value & 0x70) >> 4 << 4) | (value & 0x0F) == value)
        by (bit_vector);
}

/// Law: for every well-formed header, encoding to 12 bytes and decoding them
/// restores the header exactly.
pub proof fn lemma_header_round_trip(h: DnsHeader)
    requires
        header_wf(h),
    ensures
        spec_header_decode(spec_header_bytes(h)) == Ok::<DnsHeader, ParseError>(h),
{
    let b = spec_header_bytes(h);
    lemma_first_half_round_trip(h.hdr_sr_fh);
    lemma_second_half_round_trip(h.hdr_sr_sh);
    lemma_u16_bytes_round_trip(h.txid);
    lemma_u16_bytes_round_trip(h.counts.qdcount);
    lemma_u16_bytes_round_trip(h.counts.ancount);
    lemma_u16_bytes_round_trip(h.counts.nscount);
    lemma_u16_bytes_round_trip(h.counts.arcount);
    assert(b[4] == ((h.counts.qdcount >> 8) & 0xFF) as u8 && b[5] == (h.counts.qdcount & 0xFF) as u8
        && b[6] == ((h.counts.ancount >> 8) & 0xFF) as u8 && b[7] == (h.counts.ancount & 0xFF) as u8
        && b[8] == ((h.counts.nscount >> 8) & 0xFF) as u8 && b[9] == (h.counts.nscount & 0xFF) as u8
        && b[10] == ((h.counts.arcount >> 8) & 0xFF) as u8 && b[11] == (h.counts.arcount
        & 0xFF) as u8);
}

/// Law: for every 12 bytes that decode as a header, re-encoding the decoded
/// header reproduces the bytes exactly.
pub proof fn lemma_header_bytes_round_trip(b: Seq<u8>)
    requires
        b.len() == 12,
        spec_header_decode(b) is Ok,
    ensures
        spec_header_bytes(spec_header_decode(b)->Ok_0) == b,
        header_wf(spec_header_decode(b)->Ok_0),
{
    let h = spec_header_decode(b)->Ok_0;
    lemma_first_half_byte_round_trip(b[2]);
    lemma_second_half_byte_round_trip(b[3]);
    lemma_u16_split_round_trip(b[0], b[1]);
    lemma_u16_split_round_trip(b[4], b[5]);
    lemma_u16_split_round_trip(b[6], b[7]);
    lemma_u16_split_round_trip(b[8], b[9]);
    lemma_u16_split_round_trip(b[10], b[11]);
    assert(spec_header_bytes(h) =~= b);
}

/// Splitting a 16-bit value into its big-endian bytes and recombining them
/// restores the value.
pub proof fn lemma_u16_bytes_round_trip(v: u16)
    ensures
        spec_u16_from_bytes(((v >> 8) & 0xFF) as u8, (v & 0xFF) as u8) == v,
{
    assert((((((v >> 8) & 0xFF) as u8) as u16) << 8) | (((v & 0xFF) as u8) as u16) == v)
        by (bit_vector);
}

/// Recombining two bytes into a 16-bit value and splitting it again restores
/// both bytes.
pub proof fn lemma_u16_split_round_trip(hi: u8, lo: u8)
    ensures
        ((spec_u16_from_bytes(hi, lo) >> 8) & 0xFF) as u8 == hi,
        (spec_u16_from_bytes(hi, lo) & 0xFF) as u8 == lo,
{
    assert(((((hi as u16) << 8) | (lo as u16)) >> 8 & 0xFF) as u8 == hi && ((((hi as u16) << 8) | (
    lo as u16)) & 0xFF) as u8 == lo) by (bit_vector);
}

} // verus!
