//! Wire-level core of a DNS message processor: a byte-exact codec for DNS
//! packets (header, compressed domain names, resource-record sections) and a
//! forwarding-correlation table that splits one multi-question query into
//! single-question upstream queries and reassembles the answers.
use vstd::prelude::*;

pub mod buffer;
pub mod converter;
pub mod error;
pub mod header;
pub mod parser;
pub mod section;

verus! {

/// The four bytes of `num` in big-endian order (most significant first).
pub open spec fn spec_u32_be_bytes(num: u32) -> Seq<u8> {
    seq![
        ((num >> 24) & 0xFF) as u8,
        ((num >> 16) & 0xFF) as u8,
        ((num >> 8) & 0xFF) as u8,
        (num & 0xFF) as u8,
    ]
}

/// The two bytes of `num` in big-endian order (most significant first).
pub open spec fn spec_u16_be_bytes(num: u16) -> Seq<u8> {
    seq![((num >> 8) & 0xFF) as u8, (num & 0xFF) as u8]
}

/// Relies on String::push, which appends the given character to the string.
#[verifier::external_body]
pub(crate) fn push_char(s: &mut String, c: char)
    ensures
        final(s)@ == old(s)@.push(c),
{
    s.push(c)
}

pub fn big_endian_convert_u32_to_u8_array(num: u32) -> (res: [u8; 4])
    ensures
        res@ == spec_u32_be_bytes(num),
{
    let res = [
        ((num >> 24) & 0xFF) as u8,
        ((num >> 16) & 0xFF) as u8,
        ((num >> 8) & 0xFF) as u8,
        (num & 0xFF) as u8,
    ];
    proof {
        assert(res@ =~= spec_u32_be_bytes(num));
    }
    res
}

pub fn big_endian_convert_u16_to_u8_array(num: u16) -> (res: [u8; 2])
    ensures
        res@ == spec_u16_be_bytes(num),
{
    let res = [((num >> 8) & 0xFF) as u8, (num & 0xFF) as u8];
    proof {
        assert(res@ =~= spec_u16_be_bytes(num));
    }
    res
}

} // verus!
