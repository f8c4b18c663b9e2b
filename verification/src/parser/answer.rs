//! Answer-style records for the slice-based parser: a record plus TTL,
//! resource-data length and resource data, keeping the raw bytes of the
//! fixed fields alongside their values.
use crate::error::ParseError;
use crate::parser::section::parse_single_section;
use crate::parser::section::spec_parse_single_section;
use crate::parser::section::PSectionModel;
use crate::parser::section::Section;
use crate::parser::section::SectionBytes;
use vstd::prelude::*;

verus! {

/// One answer-style record: the base record, the TTL and data length as both
/// value and raw bytes, and the resource data.
#[derive(Debug)]
pub struct ASection {
    pub inner: Section,
    pub ttl: (u32, [u8; 4]),
    pub length: (u16, [u8; 2]),
    pub data: Vec<u8>,
}

/// The mathematical shape of an answer-style record.
#[verifier::ext_equal]
pub struct ASectionModel {
    pub inner: PSectionModel,
    pub ttl: u32,
    pub ttl_bytes: Seq<u8>,
    pub length: u16,
    pub length_bytes: Seq<u8>,
    pub data: Seq<u8>,
}

impl ASection {
    pub open spec fn model(self) -> ASectionModel {
        ASectionModel {
            inner: self.inner.model(),
            ttl: self.ttl.0,
            ttl_bytes: self.ttl.1@,
            length: self.length.0,
            length_bytes: self.length.1@,
            data: self.data@,
        }
    }

    pub fn new(inner: Section, ttl: (u32, [u8; 4]), length: (u16, [u8; 2]), data: Vec<u8>) -> (r:
        Self)
        ensures
            r.inner == inner,
            r.ttl == ttl,
            r.length == length,
            r.data == data,
    {
        ASection { inner, ttl, length, data }
    }
}

impl SectionBytes for ASection {
    /// The record's bytes followed by the raw TTL, length and data bytes.
    fn into_bytes(self) -> (r: Vec<u8>)
        ensures
            r@ == self.inner.raw_domain@ + crate::spec_u16_be_bytes(
                crate::parser::section::rrtype_value(self.inner.rr_type),
            ) + crate::spec_u16_be_bytes(
                crate::parser::section::rrclass_value(self.inner.rr_class),
            ) + self.ttl.1@ + self.length.1@ + self.data@,
    {
        let mut v = self.inner.into_bytes();
        v.push(self.ttl.1[0]);
        v.push(self.ttl.1[1]);
        v.push(self.ttl.1[2]);
        v.push(self.ttl.1[3]);
        v.push(self.length.1[0]);
        v.push(self.length.1[1]);
        let ghost before = v@;
        let mut k: usize = 0;
        while k < self.data.len()
            invariant
                0 <= k <= self.data@.len(),
                v@ == before + self.data@.take(k as int),
            decreases self.data.len() - k,
        {
            let b = self.data[k];
            v.push(b);
            proof {
                assert(self.data@.take(k + 1) =~= self.data@.take(k as int).push(b));
            }
            k = k + 1;
        }
        proof {
            assert(self.data@.take(self.data@.len() as int) =~= self.data@);
            assert(v@ =~= self.inner.raw_domain@ + crate::spec_u16_be_bytes(
                crate::parser::section::rrtype_value(self.inner.rr_type),
            ) + crate::spec_u16_be_bytes(
                crate::parser::section::rrclass_value(self.inner.rr_class),
            ) + self.ttl.1@ + self.length.1@ + self.data@);
        }
        v
    }

    fn section(&self) -> (r: &Section)
        ensures
            r == &self.inner,
    {
        &self.inner
    }
}

/// One answer-style record parsed at `pos`: its model and the position after
/// it. Missing fixed-field or resource-data bytes are section errors.
pub open spec fn spec_parse_single_asection(b: Seq<u8>, pos: int) -> Result<
    (ASectionModel, int),
    ParseError,
> {
    match spec_parse_single_section(b, pos) {
        Err(e) => Err(e),
        Ok(s) => {
            let e = s.1;
            if e + 4 > b.len() {
                Err(ParseError::SectionError)
            } else if e + 6 > b.len() {
                Err(ParseError::SectionError)
            } else {
                let ttl = crate::buffer::spec_u32_from_bytes(b[e], b[e + 1], b[e + 2], b[e + 3]);
                let lv = crate::header::spec_u16_from_bytes(b[e + 4], b[e + 5]);
                if e + 6 + lv > b.len() {
                    Err(ParseError::SectionError)
                } else {
                    Ok(
                        (
                            ASectionModel {
                                inner: s.0,
                                ttl,
                                ttl_bytes: b.subrange(e, e + 4),
                                length: lv,
                                length_bytes: b.subrange(e + 4, e + 6),
                                data: b.subrange(e + 6, e + 6 + lv),
                            },
                            e + 6 + lv,
                        ),
                    )
                }
            }
        },
    }
}

/// Parse one answer-style record at `*pos`, advancing past it on success.
pub fn parse_single_asection(data: &[u8], pos: &mut usize) -> (r: Result<ASection, ParseError>)
    requires
        *old(pos) <= data@.len(),
    ensures
        ({
            let res = spec_parse_single_asection(data@, *old(pos) as int);
            match r {
                Ok(s) => res is Ok && s.model() == res->Ok_0.0 && *final(pos) == res->Ok_0.1
                    && *final(pos) <= data@.len(),
                Err(e) => res is Err && res->Err_0 == e,
            }
        }),
{
    let ghost b = data@;
    let section = match parse_single_section(data, pos) {
        Ok(s) => s,
        Err(e) => {
            return Err(e);
        },
    };
    let mut p: usize = *pos;
    if data.len() - p < 4 {
        return Err(ParseError::SectionError);
    }
    let ttl_arr = [data[p], data[p + 1], data[p + 2], data[p + 3]];
    p = p + 4;
    if data.len() - p < 2 {
        return Err(ParseError::SectionError);
    }
    let len_arr = [data[p], data[p + 1]];
    p = p + 2;
    let ttl_val = ((ttl_arr[0] as u32) << 24) | ((ttl_arr[1] as u32) << 16) | ((
    ttl_arr[2] as u32) << 8) | (ttl_arr[3] as u32);
    let length_val = ((len_arr[0] as u16) << 8) | (len_arr[1] as u16);
    let ghost dstart = p as int;
    if data.len() - p < length_val as usize {
        return Err(ParseError::SectionError);
    }
    let end = p + length_val as usize;
    let mut data_vec: Vec<u8> = Vec::new();
    proof {
        assert(data_vec@ =~= b.subrange(dstart, dstart));
    }
    while p < end
        invariant
            b == data@,
            0 <= dstart,
            dstart <= p <= end,
            end <= b.len(),
            data_vec@ == b.subrange(dstart, p as int),
        decreases end - p,
    {
        let byte = data[p];
        data_vec.push(byte);
        proof {
            assert(b.subrange(dstart, p + 1) =~= b.subrange(dstart, p as int).push(byte));
        }
        p = p + 1;
    }
    *pos = p;
    let r = ASection {
        inner: section,
        ttl: (ttl_val, ttl_arr),
        length: (length_val, len_arr),
        data: data_vec,
    };
    proof {
        let res = spec_parse_single_asection(b, *old(pos) as int);
        assert((((ttl_arr[0] as u32) << 24) | ((ttl_arr[1] as u32) << 16) | ((
        ttl_arr[2] as u32) << 8) | (ttl_arr[3] as u32)) == crate::buffer::spec_u32_from_bytes(
            ttl_arr[0],
            ttl_arr[1],
            ttl_arr[2],
            ttl_arr[3],
        ));
        assert(r.model().ttl_bytes =~= res->Ok_0.0.ttl_bytes);
        assert(r.model().length_bytes =~= res->Ok_0.0.length_bytes);
    }
    Ok(r)
}

} // verus!
