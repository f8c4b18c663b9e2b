//! The bounds-checked 512-byte datagram cursor and the message decoder built
//! on it: header, compressed domain names and the four record sections.
use crate::error::ParseError;
use crate::error::UdpBufferError;
use crate::error::UnpackError;
use crate::header::spec_header_decode;
use crate::header::spec_u16_from_bytes;
use crate::header::DnsHeader;
use crate::header::HeaderSecondRowFirstHalf;
use crate::header::HeaderSecondRowSecondHalf;
use crate::header::SectionCount;
use crate::section::class_value;
use crate::section::spec_class_decode;
use crate::section::spec_encode_group;
use crate::section::spec_encode_labels;
use crate::section::spec_type_decode;
use crate::section::type_value;
use crate::section::Class;
use crate::section::Section;
use crate::section::SectionGroup;
use crate::section::SectionGroupModel;
use crate::section::SectionModel;
use crate::section::Type;
use vstd::prelude::*;

verus! {

/// A UDP datagram holds at most this many bytes here.
pub const MAX_UDP_PACKET_SIZE: usize = 512;

/// The fixed size of the DNS header at the front of every message.
pub const DNS_HEADER_SIZE: usize = 12;

/// Hard ceiling on compression jumps while decoding one name, so that a
/// pointer cycle in a crafted packet fails with a jump error instead of
/// looping; one jump per buffer position can never be exceeded by an honest
/// name.
pub const MAX_NAME_JUMPS: u16 = 512;

/// A fixed-capacity big-endian reader over one received datagram.
#[derive(Debug)]
pub struct UdpBuffer {
    pub inner: [u8; 512],
    pub pos: usize,
}

/// A byte allowed inside a domain label: ASCII alphanumeric or hyphen.
pub open spec fn is_label_byte(b: u8) -> bool {
    (0x30 <= b && b <= 0x39) || (0x41 <= b && b <= 0x5A) || (0x61 <= b && b <= 0x7A) || b == 0x2D
}

/// Every byte of the label occupying `[start, start + len)` is allowed.
pub open spec fn all_label_bytes_valid(buf: Seq<u8>, start: int, len: int) -> bool {
    forall|j: int| 0 <= j < len ==> is_label_byte(#[trigger] buf[start + j])
}

/// The characters of the label occupying `[start, start + len)`.
pub open spec fn label_chars(buf: Seq<u8>, start: int, len: int) -> Seq<char> {
    Seq::new(len as nat, |j: int| buf[start + j] as char)
}

/// A big-endian 16-bit read at `pos`: the value and the position after it.
pub open spec fn spec_read_u16(buf: Seq<u8>, pos: int) -> Result<(u16, int), UnpackError> {
    if 0 <= pos && pos + 1 < 512 {
        Ok((spec_u16_from_bytes(buf[pos], buf[pos + 1]), pos + 2))
    } else {
        Err(UnpackError::Buffer(UdpBufferError::EndOfBuffer))
    }
}

/// A 32-bit big-endian quantity from four bytes.
pub open spec fn spec_u32_from_bytes(b0: u8, b1: u8, b2: u8, b3: u8) -> u32 {
    ((b0 as u32) << 24) | ((b1 as u32) << 16) | ((b2 as u32) << 8) | (b3 as u32)
}

/// A big-endian 32-bit read at `pos`: the value and the position after it.
pub open spec fn spec_read_u32(buf: Seq<u8>, pos: int) -> Result<(u32, int), UnpackError> {
    if 0 <= pos && pos + 3 < 512 {
        Ok((spec_u32_from_bytes(buf[pos], buf[pos + 1], buf[pos + 2], buf[pos + 3]), pos + 4))
    } else {
        Err(UnpackError::Buffer(UdpBufferError::EndOfBuffer))
    }
}

impl UdpBuffer {
    pub fn new(inner: [u8; 512]) -> (r: Self)
        ensures
            r.inner == inner,
            r.pos == 0,
    {
        UdpBuffer { inner, pos: 0 }
    }

    /// One byte at the cursor, advancing past it.
    pub fn read(&mut self) -> (r: Result<u8, UdpBufferError>)
        ensures
            final(self).inner == old(self).inner,
            match r {
                Ok(b) => old(self).pos < 512 && b == old(self).inner@[old(self).pos as int]
                    && final(self).pos == old(self).pos + 1,
                Err(e) => old(self).pos >= 512 && e == UdpBufferError::EndOfBuffer && final(self).pos == old(self).pos,
            },
    {
        if self.pos >= MAX_UDP_PACKET_SIZE {
            Err(UdpBufferError::EndOfBuffer)
        } else {
            let res = self.inner[self.pos];
            self.pos = self.pos + 1;
            Ok(res)
        }
    }

    /// Move the cursor to an absolute offset inside the buffer.
    pub fn seek(&mut self, index: usize) -> (r: Result<(), UdpBufferError>)
        ensures
            final(self).inner == old(self).inner,
            match r {
                Ok(()) => index < 512 && final(self).pos == index,
                Err(e) => index >= 512 && e == (UdpBufferError::Seek { index }) && final(self).pos
                    == old(self).pos,
            },
    {
        if index >= MAX_UDP_PACKET_SIZE {
            Err(UdpBufferError::Seek { index })
        } else {
            self.pos = index;
            Ok(())
        }
    }

    /// Whether the cursor has run off the end of the buffer.
    pub fn has_remaining(&mut self) -> (r: bool)
        ensures
            r == (old(self).pos >= 512),
            *final(self) == *old(self),
    {
        self.pos >= MAX_UDP_PACKET_SIZE
    }

    /// The byte at the cursor, without advancing.
    pub fn peek(&self) -> (r: Result<u8, UdpBufferError>)
        ensures
            match r {
                Ok(b) => self.pos < 512 && b == self.inner@[self.pos as int],
                Err(e) => self.pos >= 512 && e == UdpBufferError::EndOfBuffer,
            },
    {
        if self.pos >= MAX_UDP_PACKET_SIZE {
            Err(UdpBufferError::EndOfBuffer)
        } else {
            Ok(self.inner[self.pos])
        }
    }

    pub fn get_u8(&mut self) -> (r: Result<u8, UdpBufferError>)
        ensures
            final(self).inner == old(self).inner,
            match r {
                Ok(b) => old(self).pos < 512 && b == old(self).inner@[old(self).pos as int]
                    && final(self).pos == old(self).pos + 1,
                Err(e) => old(self).pos >= 512 && e == UdpBufferError::EndOfBuffer && final(self).pos == old(self).pos,
            },
    {
        self.read()
    }

    /// Two bytes big-endian.
    pub fn get_u16(&mut self) -> (r: Result<u16, UdpBufferError>)
        ensures
            final(self).inner == old(self).inner,
            match r {
                Ok(v) => old(self).pos + 1 < 512 && spec_read_u16(
                    old(self).inner@,
                    old(self).pos as int,
                ) == Ok::<(u16, int), UnpackError>((v, final(self).pos as int)),
                Err(e) => old(self).pos + 1 >= 512 && e == UdpBufferError::EndOfBuffer,
            },
    {
        let hi = match self.read() {
            Ok(b) => b,
            Err(e) => {
                return Err(e);
            },
        };
        let lo = match self.read() {
            Ok(b) => b,
            Err(e) => {
                return Err(e);
            },
        };
        let res = ((hi as u16) << 8) | (lo as u16);
        Ok(res)
    }

    /// Four bytes big-endian: the first pair gives the high half, the second
    /// the low half, standard 32-bit big-endian composition.
    pub fn get_u32(&mut self) -> (r: Result<u32, UdpBufferError>)
        ensures
            final(self).inner == old(self).inner,
            match r {
                Ok(v) => old(self).pos + 3 < 512 && spec_read_u32(
                    old(self).inner@,
                    old(self).pos as int,
                ) == Ok::<(u32, int), UnpackError>((v, final(self).pos as int)),
                Err(e) => old(self).pos + 3 >= 512 && e == UdpBufferError::EndOfBuffer,
            },
    {
        let ghost b = old(self).inner@;
        let ghost p = old(self).pos as int;
        let hi = match self.get_u16() {
            Ok(v) => v,
            Err(e) => {
                return Err(e);
            },
        };
        let lo = match self.get_u16() {
            Ok(v) => v,
            Err(e) => {
                return Err(e);
            },
        };
        let res = ((hi as u32) << 16) | (lo as u32);
        proof {
            let b0 = b[p];
            let b1 = b[p + 1];
            let b2 = b[p + 2];
            let b3 = b[p + 3];
            assert(hi == spec_u16_from_bytes(b0, b1) && lo == spec_u16_from_bytes(b2, b3));
            assert((((((b0 as u16) << 8) | (b1 as u16)) as u32) << 16) | ((((b2 as u16) << 8) | (
            b3 as u16)) as u32) == ((b0 as u32) << 24) | ((b1 as u32) << 16) | ((b2 as u32) << 8)
                | (b3 as u32)) by (bit_vector);
        }
        Ok(res)
    }
}

fn label_byte_ok(b: u8) -> (r: bool)
    ensures
        r == is_label_byte(b),
{
    (0x30 <= b && b <= 0x39) || (0x41 <= b && b <= 0x5A) || (0x61 <= b && b <= 0x7A) || b == 0x2D
}

spec fn spec_reset_model(r: Option<usize>) -> Option<int> {
    match r {
        Option::Some(v) => Option::Some(v as int),
        Option::None => Option::None,
    }
}

/// One domain name scanned from `pos`: the label sequence gathered while
/// following any compression pointers, and the cursor position after the name
/// (after its zero byte, or just past the first pointer when one was taken).
/// `jumps` pointers have already been taken and `reset` remembers where the
/// cursor must come back to.
pub open spec fn spec_scan_name(
    buf: Seq<u8>,
    pos: int,
    jumps: int,
    reset: Option<int>,
) -> Result<(Seq<Seq<char>>, int), UnpackError>
    decreases MAX_NAME_JUMPS - jumps, 512 - pos,
{
    if !(0 <= pos < 512) {
        Err(UnpackError::Buffer(UdpBufferError::EndOfBuffer))
    } else {
        let len = buf[pos];
        if len == 0 {
            match reset {
                Option::Some(r) => if r < 512 {
                    Ok((Seq::empty(), r))
                } else {
                    Err(UnpackError::Buffer(UdpBufferError::Seek { index: r as usize }))
                },
                Option::None => Ok((Seq::empty(), pos + 1)),
            }
        } else if len & 0xC0 == 0xC0 {
            if jumps >= MAX_NAME_JUMPS {
                Err(UnpackError::Parse(ParseError::JumpError))
            } else if pos + 1 >= 512 {
                Err(UnpackError::Buffer(UdpBufferError::EndOfBuffer))
            } else {
                let tv = spec_u16_from_bytes(len, buf[pos + 1]) & 0x3FFF;
                let reset2 = match reset {
                    Option::Some(r) => Option::Some(r),
                    Option::None => Option::Some(pos + 2),
                };
                if tv >= 512 {
                    Err(UnpackError::Buffer(UdpBufferError::Seek { index: tv as usize }))
                } else {
                    spec_scan_name(buf, tv as int, jumps + 1, reset2)
                }
            }
        } else {
            let llen = len as int;
            let start = pos + 1;
            let end = start + llen;
            if end > 512 {
                Err(UnpackError::Parse(ParseError::SectionError))
            } else if !all_label_bytes_valid(buf, start, llen) {
                Err(UnpackError::Parse(ParseError::SectionError))
            } else if end >= 512 {
                Err(UnpackError::Buffer(UdpBufferError::Seek { index: end as usize }))
            } else {
                match spec_scan_name(buf, end, jumps, reset) {
                    Ok(p) => Ok((seq![label_chars(buf, start, llen)] + p.0, p.1)),
                    Err(e) => Err(e),
                }
            }
        }
    }
}

/// A successful scan starts inside the buffer and leaves the cursor at the
/// remembered reset position, or strictly past where it began.
pub proof fn lemma_scan_name_bounds(buf: Seq<u8>, pos: int, jumps: int, reset: Option<int>)
    requires
        spec_scan_name(buf, pos, jumps, reset) is Ok,
        match reset {
            Option::Some(r) => 0 <= r,
            Option::None => true,
        },
    ensures
        0 <= pos < 512,
        ({
            let fin = spec_scan_name(buf, pos, jumps, reset)->Ok_0.1;
            &&& 0 <= fin <= 512
            &&& match reset {
                Option::Some(r) => fin == r,
                Option::None => pos < fin,
            }
        }),
    decreases MAX_NAME_JUMPS - jumps, 512 - pos,
{
    let len = buf[pos];
    if len == 0 {
    } else if len & 0xC0 == 0xC0 {
        let tv = spec_u16_from_bytes(len, buf[pos + 1]) & 0x3FFF;
        let reset2 = match reset {
            Option::Some(r) => Option::Some(r),
            Option::None => Option::Some(pos + 2),
        };
        lemma_scan_name_bounds(buf, tv as int, jumps + 1, reset2);
    } else {
        let end = pos + 1 + len as int;
        lemma_scan_name_bounds(buf, end, jumps, reset);
    }
}

/// Law: a label byte outside ASCII alphanumerics and hyphen fails the name
/// scan with a section error, whatever the byte is and wherever the scan
/// stands, provided the label otherwise lies inside the buffer.
pub proof fn lemma_label_charset(buf: Seq<u8>, pos: int, jumps: int, reset: Option<int>, j: int)
    requires
        buf.len() == 512,
        0 <= pos < 512,
        buf[pos] != 0,
        buf[pos] & 0xC0 != 0xC0,
        pos + 1 + buf[pos] <= 512,
        0 <= j < buf[pos],
        !is_label_byte(buf[pos + 1 + j]),
    ensures
        spec_scan_name(buf, pos, jumps, reset) == Err::<(Seq<Seq<char>>, int), UnpackError>(
            UnpackError::Parse(ParseError::SectionError),
        ),
{
    assert(!all_label_bytes_valid(buf, pos + 1, buf[pos] as int));
}

/// One whole record decoded at `pos`: its model and the cursor position after
/// it, or the exact error the bytes force.
pub open spec fn spec_unpack_group(buf: Seq<u8>, pos: int, is_asection: bool) -> Result<
    (SectionGroupModel, int),
    UnpackError,
> {
    match spec_scan_name(buf, pos, 0, Option::None) {
        Err(e) => Err(e),
        Ok(name) => match spec_read_u16(buf, name.1) {
            Err(e) => Err(e),
            Ok(t) => match spec_type_decode(t.0) {
                Err(e) => Err(UnpackError::Parse(e)),
                Ok(ty) => match spec_read_u16(buf, t.1) {
                    Err(e) => Err(e),
                    Ok(c) => match spec_class_decode(c.0) {
                        Err(e) => Err(UnpackError::Parse(e)),
                        Ok(cl) => if !is_asection {
                            Ok(
                                (
                                    SectionGroupModel {
                                        domain: name.0,
                                        group_type: ty,
                                        class: cl,
                                        asection: Option::None,
                                    },
                                    c.1,
                                ),
                            )
                        } else {
                            match spec_read_u32(buf, c.1) {
                                Err(e) => Err(e),
                                Ok(ttl) => match spec_read_u16(buf, ttl.1) {
                                    Err(e) => Err(e),
                                    Ok(dl) => {
                                        let end = dl.1 + dl.0 as int;
                                        if end > 512 {
                                            Err(UnpackError::Parse(ParseError::SectionError))
                                        } else if end >= 512 {
                                            Err(
                                                UnpackError::Buffer(
                                                    UdpBufferError::Seek { index: end as usize },
                                                ),
                                            )
                                        } else {
                                            Ok(
                                                (
                                                    SectionGroupModel {
                                                        domain: name.0,
                                                        group_type: ty,
                                                        class: cl,
                                                        asection: Option::Some(
                                                            (ttl.0, dl.0, buf.subrange(dl.1, end)),
                                                        ),
                                                    },
                                                    end,
                                                ),
                                            )
                                        }
                                    },
                                },
                            }
                        },
                    },
                },
            },
        },
    }
}

/// A successfully decoded record starts inside the buffer and ends strictly
/// past its first byte, within the buffer.
pub proof fn lemma_unpack_group_bounds(buf: Seq<u8>, pos: int, is_asection: bool)
    requires
        spec_unpack_group(buf, pos, is_asection) is Ok,
    ensures
        0 <= pos < 512,
        pos < spec_unpack_group(buf, pos, is_asection)->Ok_0.1 <= 512,
{
    lemma_scan_name_bounds(buf, pos, 0, Option::None);
}

/// A character allowed inside a domain label.
pub open spec fn is_label_char(c: char) -> bool {
    ('0' <= c && c <= '9') || ('A' <= c && c <= 'Z') || ('a' <= c && c <= 'z') || c == '-'
}

/// A record model the codec can round-trip: labels of one to 63 allowed
/// characters each, and any payload's declared length matching its data.
pub open spec fn group_round_trippable(m: SectionGroupModel) -> bool {
    &&& forall|i: int| 0 <= i < m.domain.len() ==> 1 <= (#[trigger] m.domain[i]).len() <= 63
    &&& forall|i: int, j: int|
        0 <= i < m.domain.len() && 0 <= j < m.domain[i].len() ==> is_label_char(
            #[trigger] m.domain[i][j],
        )
    &&& match m.asection {
        Option::Some((ttl, dlen, data)) => dlen == data.len(),
        Option::None => true,
    }
}

/// Literally encoded labels followed by a zero byte scan back to the same
/// labels, leaving the cursor just past the zero byte.
proof fn lemma_labels_decode(labels: Seq<Seq<char>>, buf: Seq<u8>, pos: int, jumps: int)
    requires
        buf.len() == 512,
        spec_encode_labels(labels) is Ok,
        forall|i: int| 0 <= i < labels.len() ==> 1 <= (#[trigger] labels[i]).len() <= 63,
        forall|i: int, j: int|
            0 <= i < labels.len() && 0 <= j < labels[i].len() ==> is_label_char(
                #[trigger] labels[i][j],
            ),
        0 <= pos,
        pos + spec_encode_labels(labels)->Ok_0.len() < 512,
        buf.subrange(pos, pos + spec_encode_labels(labels)->Ok_0.len()) == spec_encode_labels(
            labels,
        )->Ok_0,
        buf[pos + spec_encode_labels(labels)->Ok_0.len()] == 0,
    ensures
        spec_scan_name(buf, pos, jumps, Option::None) == Ok::<(Seq<Seq<char>>, int), UnpackError>(
            (labels, pos + spec_encode_labels(labels)->Ok_0.len() + 1),
        ),
    decreases labels.len(),
{
    let lb = spec_encode_labels(labels)->Ok_0;
    if labels.len() == 0 {
        assert(lb =~= Seq::<u8>::empty());
        assert(labels =~= Seq::<Seq<char>>::empty());
        assert(buf[pos] == 0);
    } else {
        let l = labels[0];
        let bytes = vstd::utf8::encode_utf8(l);
        let n = bytes.len();
        let rest = spec_encode_labels(labels.drop_first())->Ok_0;
        assert(lb == seq![n as u8] + bytes + rest);
        assert(vstd::utf8::is_ascii_chars(l)) by {
            assert forall|k: int| 0 <= k < l.len() implies '\0' <= #[trigger] l[k] <= '\u{7f}' by {
                assert(is_label_char(l[k]));
            }
        }
        vstd::utf8::is_ascii_chars_encode_utf8(l);
        assert(buf[pos] == lb[0]) by {
            assert(buf.subrange(pos, pos + lb.len())[0] == buf[pos]);
        }
        assert(l.len() == n);
        assert(1 <= n <= 63);
        let len = buf[pos];
        assert(len == n as u8);
        assert(len & 0xC0 != 0xC0 && len != 0) by (bit_vector)
            requires
                1 <= len <= 63,
        ;
        // the label's bytes are its characters, each allowed
        assert forall|k: int| 0 <= k < n implies buf[pos + 1 + k] == l[k] as u8 by {
            assert(buf.subrange(pos, pos + lb.len())[1 + k] == buf[pos + 1 + k]);
            assert(lb[1 + k] == bytes[k]);
        }
        assert forall|k: int| 0 <= k < n implies is_label_byte(#[trigger] buf[pos + 1 + k]) by {
            assert(is_label_char(l[k]));
        }
        assert(all_label_bytes_valid(buf, pos + 1, n as int));
        assert(label_chars(buf, pos + 1, n as int) =~= l);
        let end = pos + 1 + n;
        // the rest of the name follows immediately
        assert(buf.subrange(end, end + rest.len()) =~= rest) by {
            assert forall|k: int| 0 <= k < rest.len() implies buf.subrange(end, end + rest.len())[k]
                == rest[k] by {
                assert(buf.subrange(pos, pos + lb.len())[1 + n + k] == buf[end + k]);
                assert(lb[1 + n + k] == rest[k]);
            }
        }
        assert(buf[end + rest.len()] == 0);
        lemma_labels_decode(labels.drop_first(), buf, end, jumps);
        assert(seq![label_chars(buf, pos + 1, n as int)] + labels.drop_first() =~= labels);
    }
}

/// Recombining the four big-endian bytes of a 32-bit value restores it.
pub proof fn lemma_u32_bytes_round_trip(v: u32)
    ensures
        spec_u32_from_bytes(
            ((v >> 24) & 0xFF) as u8,
            ((v >> 16) & 0xFF) as u8,
            ((v >> 8) & 0xFF) as u8,
            (v & 0xFF) as u8,
        ) == v,
{
    assert(((((v >> 24) & 0xFF) as u8 as u32) << 24) | ((((v >> 16) & 0xFF) as u8 as u32) << 16)
        | ((((v >> 8) & 0xFF) as u8 as u32) << 8) | (((v & 0xFF) as u8) as u32) == v)
        by (bit_vector);
}

/// Law: a record the codec can represent decodes from its own encoding back
/// to itself, with the cursor left exactly past it. Encoding always writes
/// literal labels, so no compression case arises on such input.
pub proof fn lemma_group_round_trip(m: SectionGroupModel, buf: Seq<u8>)
    requires
        buf.len() == 512,
        group_round_trippable(m),
        spec_encode_group(m) is Ok,
        spec_encode_group(m)->Ok_0.len() < 512,
        buf.subrange(0, spec_encode_group(m)->Ok_0.len() as int) == spec_encode_group(m)->Ok_0,
    ensures
        spec_unpack_group(buf, 0, m.asection is Some) == Ok::<
            (SectionGroupModel, int),
            UnpackError,
        >((m, spec_encode_group(m)->Ok_0.len() as int)),
{
    let e = spec_encode_group(m)->Ok_0;
    let lb = spec_encode_labels(m.domain)->Ok_0;
    let gl = lb.len() as int;
    let head = lb + seq![0u8, 0u8, type_value(m.group_type), 0u8, class_value(m.class)];
    assert forall|i: int| 0 <= i < e.len() implies buf[i] == e[i] by {
        assert(buf.subrange(0, e.len() as int)[i] == buf[i]);
    }
    assert(buf.subrange(0, gl) =~= lb);
    assert(buf[gl] == 0);
    lemma_labels_decode(m.domain, buf, 0, 0);
    let name = spec_scan_name(buf, 0, 0, Option::None)->Ok_0;
    assert(name.0 == m.domain && name.1 == gl + 1);
    let tv = type_value(m.group_type);
    let cv = class_value(m.class);
    assert(buf[gl + 1] == 0 && buf[gl + 2] == tv && buf[gl + 3] == 0 && buf[gl + 4] == cv);
    assert(spec_u16_from_bytes(0, tv) == tv as u16 && spec_u16_from_bytes(0, cv) == cv as u16)
        by (bit_vector);
    assert(spec_type_decode(tv as u16) == Ok::<Type, ParseError>(m.group_type));
    assert(spec_class_decode(cv as u16) == Ok::<Class, ParseError>(m.class));
    match m.asection {
        Option::None => {
            assert(e =~= head);
        },
        Option::Some((ttl, dlen, data)) => {
            assert(e =~= head + crate::spec_u32_be_bytes(ttl) + crate::spec_u16_be_bytes(dlen)
                + data);
            let p4 = gl + 5;
            assert(buf[p4] == ((ttl >> 24) & 0xFF) as u8 && buf[p4 + 1] == ((ttl >> 16)
                & 0xFF) as u8 && buf[p4 + 2] == ((ttl >> 8) & 0xFF) as u8 && buf[p4 + 3] == (ttl
                & 0xFF) as u8);
            lemma_u32_bytes_round_trip(ttl);
            assert(buf[p4 + 4] == ((dlen >> 8) & 0xFF) as u8 && buf[p4 + 5] == (dlen & 0xFF) as u8);
            crate::header::lemma_u16_bytes_round_trip(dlen);
            let dstart = p4 + 6;
            assert(buf.subrange(dstart, dstart + dlen) =~= data) by {
                assert forall|k: int| 0 <= k < dlen implies buf.subrange(dstart, dstart + dlen)[k]
                    == data[k] by {
                    assert(e[dstart + k] == data[k]);
                }
            }
            assert(spec_unpack_group(buf, 0, true)->Ok_0.0 =~= m);
        },
    }
}

impl UdpBuffer {
    /// Decode one record at the cursor: the compressed domain name, the type
    /// and class, and, for answer-style sections, the TTL, data length and
    /// resource data.
    pub fn unpack_domain(&mut self, is_asection: bool) -> (r: Result<SectionGroup, UnpackError>)
        requires
            old(self).pos <= 512,
        ensures
            final(self).inner@ == old(self).inner@,
            ({
                let res = spec_unpack_group(old(self).inner@, old(self).pos as int, is_asection);
                match r {
                    Ok(g) => res is Ok && g.model() == res->Ok_0.0 && final(self).pos as int
                        == res->Ok_0.1 && final(self).pos <= 512,
                    Err(e) => res is Err && res->Err_0 == e,
                }
            }),
    {
        let ghost buf = self.inner@;
        let ghost pos0 = self.pos as int;
        let mut jumps: u16 = 0;
        let mut reset_pos: Option<usize> = Option::None;
        let mut domain: Vec<String> = Vec::new();
        proof {
            if spec_scan_name(buf, pos0, 0, Option::None) is Ok {
                let p = spec_scan_name(buf, pos0, 0, Option::None)->Ok_0;
                assert(Seq::<Seq<char>>::empty() + p.0 =~= p.0);
            }
            assert(domain@.map_values(|s: String| s@) =~= Seq::<Seq<char>>::empty());
        }
        loop
            invariant_except_break
                buf == old(self).inner@,
                buf.len() == 512,
                pos0 == old(self).pos as int,
                self.inner@ == buf,
                self.pos <= 512,
                jumps <= MAX_NAME_JUMPS,
                (jumps > 0) == (reset_pos is Some),
                match reset_pos {
                    Option::Some(rp) => rp <= 512,
                    Option::None => true,
                },
                ({
                    let cur = spec_scan_name(
                        buf,
                        self.pos as int,
                        jumps as int,
                        spec_reset_model(reset_pos),
                    );
                    match cur {
                        Ok(p) => spec_scan_name(buf, pos0, 0, Option::None) == Ok::<
                            (Seq<Seq<char>>, int),
                            UnpackError,
                        >((domain@.map_values(|s: String| s@) + p.0, p.1)),
                        Err(e) => spec_scan_name(buf, pos0, 0, Option::None) == Err::<
                            (Seq<Seq<char>>, int),
                            UnpackError,
                        >(e),
                    }
                }),
            ensures
                self.inner@ == buf,
                self.pos <= 512,
                spec_scan_name(buf, pos0, 0, Option::None) is Ok,
                ({
                    let p = spec_scan_name(buf, pos0, 0, Option::None)->Ok_0;
                    domain@.map_values(|s: String| s@) == p.0 && self.pos as int == p.1
                }),
            decreases MAX_NAME_JUMPS - jumps, 512 - self.pos,
        {
            let ghost p = self.pos as int;
            let ghost dm = domain@.map_values(|s: String| s@);
            let len = match self.peek() {
                Ok(b) => b,
                Err(e) => {
                    return Err(UnpackError::Buffer(e));
                },
            };
            if len == 0 {
                match reset_pos {
                    Option::Some(rp) => {
                        match self.seek(rp) {
                            Ok(_u) => {
                                proof {
                                    let cur = spec_scan_name(
                                        buf,
                                        p,
                                        jumps as int,
                                        spec_reset_model(reset_pos),
                                    );
                                    assert(cur == Ok::<(Seq<Seq<char>>, int), UnpackError>(
                                        (Seq::<Seq<char>>::empty(), rp as int),
                                    ));
                                    assert(dm + Seq::<Seq<char>>::empty() =~= dm);
                                }
                                break ;
                            },
                            Err(e) => {
                                return Err(UnpackError::Buffer(e));
                            },
                        }
                    },
                    Option::None => {
                        match self.read() {
                            Ok(_b) => {
                                proof {
                                    assert(dm + Seq::<Seq<char>>::empty() =~= dm);
                                }
                                break ;
                            },
                            Err(e) => {
                                return Err(UnpackError::Buffer(e));
                            },
                        }
                    },
                }
            } else if len & 0xC0 == 0xC0 {
                if jumps >= MAX_NAME_JUMPS {
                    return Err(UnpackError::Parse(ParseError::JumpError));
                }
                jumps = jumps + 1;
                let ptr = match self.get_u16() {
                    Ok(v) => v,
                    Err(e) => {
                        return Err(UnpackError::Buffer(e));
                    },
                };
                if reset_pos.is_none() {
                    reset_pos = Option::Some(self.pos);
                }
                let target = (ptr & 0x3FFF) as usize;
                proof {
                    assert(ptr == spec_u16_from_bytes(buf[p], buf[p + 1]));
                    assert((ptr & 0x3FFF) < 0x4000) by (bit_vector);
                }
                match self.seek(target) {
                    Ok(_u) => {},
                    Err(e) => {
                        return Err(UnpackError::Buffer(e));
                    },
                }
            } else {
                // an ordinary label of `len` bytes
                match self.read() {
                    Ok(_b) => {},
                    Err(e) => {
                        return Err(UnpackError::Buffer(e));
                    },
                }
                let llen = len as usize;
                let start = self.pos;
                let ghost gstart = start as int;
                if start + llen > 512 {
                    return Err(UnpackError::Parse(ParseError::SectionError));
                }
                let mut label = String::new();
                let mut j: usize = 0;
                while j < llen
                    invariant
                        buf == old(self).inner@,
                        buf.len() == 512,
                        pos0 == old(self).pos as int,
                        self.inner@ == buf,
                        0 <= p < 512,
                        buf[p] == len,
                        len != 0,
                        len & 0xC0 != 0xC0,
                        gstart == p + 1,
                        llen == len as int,
                        self.pos == start,
                        gstart == start as int,
                        start + llen <= 512,
                        0 <= j <= llen,
                        label@ == label_chars(buf, gstart, j as int),
                        forall|k: int| 0 <= k < j ==> is_label_byte(#[trigger] buf[gstart + k]),
                        ({
                            let cur = spec_scan_name(
                                buf,
                                p,
                                jumps as int,
                                spec_reset_model(reset_pos),
                            );
                            match cur {
                                Ok(q) => spec_scan_name(buf, pos0, 0, Option::None) == Ok::<
                                    (Seq<Seq<char>>, int),
                                    UnpackError,
                                >((dm + q.0, q.1)),
                                Err(e) => spec_scan_name(buf, pos0, 0, Option::None) == Err::<
                                    (Seq<Seq<char>>, int),
                                    UnpackError,
                                >(e),
                            }
                        }),
                        dm == domain@.map_values(|s: String| s@),
                    decreases llen - j,
                {
                    let b = self.inner[start + j];
                    if !label_byte_ok(b) {
                        proof {
                            assert(buf[gstart + j as int] == b);
                            assert(!is_label_byte(buf[gstart + j as int]));
                            assert(!all_label_bytes_valid(buf, gstart, llen as int));
                        }
                        return Err(UnpackError::Parse(ParseError::SectionError));
                    }
                    crate::push_char(&mut label, b as char);
                    proof {
                        assert(label@ =~= label_chars(buf, gstart, j + 1));
                    }
                    j = j + 1;
                }
                proof {
                    assert(all_label_bytes_valid(buf, gstart, llen as int));
                    assert(label@ == label_chars(buf, gstart, llen as int));
                }
                match self.seek(start + llen) {
                    Ok(_u) => {},
                    Err(e) => {
                        return Err(UnpackError::Buffer(e));
                    },
                }
                domain.push(label);
                proof {
                    assert(domain@.map_values(|s: String| s@) =~= dm.push(label@));
                    let cur = spec_scan_name(buf, p, jumps as int, spec_reset_model(reset_pos));
                    let next = spec_scan_name(
                        buf,
                        gstart + llen,
                        jumps as int,
                        spec_reset_model(reset_pos),
                    );
                    if next is Ok {
                        let np = next->Ok_0;
                        assert(cur == Ok::<(Seq<Seq<char>>, int), UnpackError>(
                            (seq![label_chars(buf, gstart, llen as int)] + np.0, np.1),
                        ));
                        assert(dm + (seq![label_chars(buf, gstart, llen as int)] + np.0) =~= dm.push(
                            label@,
                        ) + np.0);
                    }
                }
            }
        }
        // the name is complete; the fixed fields follow
        let t_raw = match self.get_u16() {
            Ok(v) => v,
            Err(e) => {
                return Err(UnpackError::Buffer(e));
            },
        };
        let t_type = match Type::try_from(t_raw) {
            Ok(t) => t,
            Err(e) => {
                return Err(UnpackError::Parse(e));
            },
        };
        let c_raw = match self.get_u16() {
            Ok(v) => v,
            Err(e) => {
                return Err(UnpackError::Buffer(e));
            },
        };
        let class = match Class::try_from(c_raw) {
            Ok(c) => c,
            Err(e) => {
                return Err(UnpackError::Parse(e));
            },
        };
        if is_asection {
            let ttl = match self.get_u32() {
                Ok(v) => v,
                Err(e) => {
                    return Err(UnpackError::Buffer(e));
                },
            };
            let length = match self.get_u16() {
                Ok(v) => v,
                Err(e) => {
                    return Err(UnpackError::Buffer(e));
                },
            };
            let d_start = self.pos;
            let ghost p5 = d_start as int;
            let end = d_start + length as usize;
            if end > 512 {
                return Err(UnpackError::Parse(ParseError::SectionError));
            }
            let mut data: Vec<u8> = Vec::new();
            let mut k: usize = d_start;
            proof {
                assert(data@ =~= buf.subrange(p5, p5));
            }
            while k < end
                invariant
                    buf.len() == 512,
                    self.inner@ == buf,
                    p5 == d_start as int,
                    d_start <= k <= end,
                    end <= 512,
                    data@ == buf.subrange(p5, k as int),
                decreases end - k,
            {
                let b = self.inner[k];
                data.push(b);
                proof {
                    assert(buf.subrange(p5, k + 1) =~= buf.subrange(p5, k as int).push(b));
                }
                k = k + 1;
            }
            match self.seek(end) {
                Ok(_u) => {},
                Err(e) => {
                    return Err(UnpackError::Buffer(e));
                },
            }
            let g = SectionGroup::new(domain, t_type, class, Option::Some((ttl, length, data)));
            proof {
                let res = spec_unpack_group(buf, pos0, is_asection);
                assert(g.model().domain =~= res->Ok_0.0.domain);
            }
            Ok(g)
        } else {
            let g = SectionGroup::new(domain, t_type, class, Option::None);
            proof {
                let res = spec_unpack_group(buf, pos0, is_asection);
                assert(g.model().domain =~= res->Ok_0.0.domain);
            }
            Ok(g)
        }
    }
}

/// `count` records decoded in sequence from `pos`: their models and the
/// position after the last, or the first error met.
pub open spec fn spec_unpack_section(
    buf: Seq<u8>,
    pos: int,
    count: int,
    is_asection: bool,
) -> Result<(Seq<SectionGroupModel>, int), UnpackError>
    decreases count,
{
    if count <= 0 {
        Ok((Seq::empty(), pos))
    } else {
        match spec_unpack_group(buf, pos, is_asection) {
            Err(e) => Err(e),
            Ok(g) => match spec_unpack_section(buf, g.1, count - 1, is_asection) {
                Err(e) => Err(e),
                Ok(s) => Ok((seq![g.0] + s.0, s.1)),
            },
        }
    }
}

/// One whole section decoded at `pos`: its model, raw bytes included, and the
/// position after it.
pub open spec fn spec_section_at(buf: Seq<u8>, pos: int, count: u16, is_asection: bool) -> Result<
    (SectionModel, int),
    UnpackError,
> {
    match spec_unpack_section(buf, pos, count as int, is_asection) {
        Ok(s) => Ok((SectionModel { groups: s.0, raw: buf.subrange(pos, s.1) }, s.1)),
        Err(e) => Err(e),
    }
}

/// The header, then the question section at its fixed offset, whose failure
/// is tolerated as "no question section" with the rest of the decode
/// abandoned, then the three answer-style sections, whose failures are fatal.
pub open spec fn spec_unpack(buf: Seq<u8>) -> Result<
    (DnsHeader, (Option<SectionModel>, Option<SectionModel>, Option<SectionModel>, Option<
        SectionModel,
    >)),
    UnpackError,
> {
    match spec_unpack_header(buf, 0) {
        Err(e) => Err(e),
        Ok(h) => {
            let hdr = h.0;
            if hdr.counts.qdcount > 0 {
                match spec_section_at(buf, 12, hdr.counts.qdcount, false) {
                    Err(e) => Ok(
                        (hdr, (Option::None, Option::None, Option::None, Option::None)),
                    ),
                    Ok(q) => spec_unpack_answers(buf, hdr, Option::Some(q.0), q.1),
                }
            } else {
                spec_unpack_answers(buf, hdr, Option::None, 12)
            }
        },
    }
}

/// The answer section when the header reserves one, then what follows it.
pub open spec fn spec_unpack_answers(
    buf: Seq<u8>,
    hdr: DnsHeader,
    q: Option<SectionModel>,
    pos: int,
) -> Result<
    (DnsHeader, (Option<SectionModel>, Option<SectionModel>, Option<SectionModel>, Option<
        SectionModel,
    >)),
    UnpackError,
> {
    if hdr.counts.ancount > 0 {
        match spec_section_at(buf, pos, hdr.counts.ancount, true) {
            Err(e) => Err(e),
            Ok(a) => spec_unpack_authorities(buf, hdr, q, Option::Some(a.0), a.1),
        }
    } else {
        spec_unpack_authorities(buf, hdr, q, Option::None, pos)
    }
}

/// The authority section when the header reserves one, then what follows it.
pub open spec fn spec_unpack_authorities(
    buf: Seq<u8>,
    hdr: DnsHeader,
    q: Option<SectionModel>,
    an: Option<SectionModel>,
    pos: int,
) -> Result<
    (DnsHeader, (Option<SectionModel>, Option<SectionModel>, Option<SectionModel>, Option<
        SectionModel,
    >)),
    UnpackError,
> {
    if hdr.counts.nscount > 0 {
        match spec_section_at(buf, pos, hdr.counts.nscount, true) {
            Err(e) => Err(e),
            Ok(n) => spec_unpack_additionals(buf, hdr, q, an, Option::Some(n.0), n.1),
        }
    } else {
        spec_unpack_additionals(buf, hdr, q, an, Option::None, pos)
    }
}

/// The additional section when the header reserves one, completing the
/// message.
pub open spec fn spec_unpack_additionals(
    buf: Seq<u8>,
    hdr: DnsHeader,
    q: Option<SectionModel>,
    an: Option<SectionModel>,
    ns: Option<SectionModel>,
    pos: int,
) -> Result<
    (DnsHeader, (Option<SectionModel>, Option<SectionModel>, Option<SectionModel>, Option<
        SectionModel,
    >)),
    UnpackError,
> {
    if hdr.counts.arcount > 0 {
        match spec_section_at(buf, pos, hdr.counts.arcount, true) {
            Err(e) => Err(e),
            Ok(r) => Ok((hdr, (q, an, ns, Option::Some(r.0)))),
        }
    } else {
        Ok((hdr, (q, an, ns, Option::None)))
    }
}

/// The first 12 bytes decoded as a header, with the position after them.
pub open spec fn spec_unpack_header(buf: Seq<u8>, pos: int) -> Result<
    (DnsHeader, int),
    UnpackError,
> {
    if 0 <= pos && pos + 11 < 512 {
        match spec_header_decode(buf.subrange(pos, pos + 12)) {
            Ok(h) => Ok((h, pos + 12)),
            Err(e) => Err(UnpackError::Parse(e)),
        }
    } else {
        Err(UnpackError::Buffer(UdpBufferError::EndOfBuffer))
    }
}

/// The model of a possibly-absent decoded section.
pub open spec fn spec_opt_section_model(o: Option<Section>) -> Option<SectionModel> {
    match o {
        Option::Some(s) => Option::Some(s.model()),
        Option::None => Option::None,
    }
}

impl UdpBuffer {
    /// Decode `count` records at the cursor as one section, keeping the exact
    /// raw bytes the section spans.
    pub fn unpack_section(&mut self, count: u16, is_asection: bool) -> (r: Result<
        Section,
        UnpackError,
    >)
        requires
            old(self).pos <= 512,
        ensures
            final(self).inner@ == old(self).inner@,
            ({
                let res = spec_section_at(
                    old(self).inner@,
                    old(self).pos as int,
                    count,
                    is_asection,
                );
                match r {
                    Ok(s) => res is Ok && s.model() == res->Ok_0.0 && final(self).pos as int
                        == res->Ok_0.1 && final(self).pos <= 512,
                    Err(e) => res is Err && res->Err_0 == e,
                }
            }),
    {
        let ghost buf = self.inner@;
        let ghost pos0 = self.pos as int;
        let start_pos = self.pos;
        let mut groups: Vec<SectionGroup> = Vec::new();
        let mut i: u16 = 0;
        proof {
            if spec_unpack_section(buf, pos0, count as int, is_asection) is Ok {
                let s = spec_unpack_section(buf, pos0, count as int, is_asection)->Ok_0;
                assert(Seq::<SectionGroupModel>::empty() + s.0 =~= s.0);
            }
            assert(groups@.map_values(|g: SectionGroup| g.model()) =~= Seq::<
                SectionGroupModel,
            >::empty());
        }
        while i < count
            invariant
                buf == old(self).inner@,
                buf.len() == 512,
                pos0 == old(self).pos as int,
                start_pos == old(self).pos,
                self.inner@ == buf,
                self.pos <= 512,
                pos0 <= self.pos as int,
                0 <= i <= count,
                ({
                    let rest = spec_unpack_section(
                        buf,
                        self.pos as int,
                        count as int - i as int,
                        is_asection,
                    );
                    match rest {
                        Ok(s) => spec_unpack_section(buf, pos0, count as int, is_asection) == Ok::<
                            (Seq<SectionGroupModel>, int),
                            UnpackError,
                        >((groups@.map_values(|g: SectionGroup| g.model()) + s.0, s.1)),
                        Err(e) => spec_unpack_section(buf, pos0, count as int, is_asection)
                            == Err::<(Seq<SectionGroupModel>, int), UnpackError>(e),
                    }
                }),
            decreases count - i,
        {
            let ghost p = self.pos as int;
            let ghost gm = groups@.map_values(|g: SectionGroup| g.model());
            match self.unpack_domain(is_asection) {
                Ok(g) => {
                    proof {
                        let one = spec_unpack_group(buf, p, is_asection)->Ok_0;
                        lemma_unpack_group_bounds(buf, p, is_asection);
                        groups@.push(g);
                    }
                    groups.push(g);
                    proof {
                        assert(groups@.map_values(|g2: SectionGroup| g2.model()) =~= gm.push(
                            g.model(),
                        ));
                        let one = spec_unpack_group(buf, p, is_asection)->Ok_0;
                        let rest2 = spec_unpack_section(
                            buf,
                            one.1,
                            count as int - i as int - 1,
                            is_asection,
                        );
                        if rest2 is Ok {
                            let s2 = rest2->Ok_0;
                            assert(gm + (seq![one.0] + s2.0) =~= gm.push(g.model()) + s2.0);
                        }
                    }
                },
                Err(e) => {
                    return Err(e);
                },
            }
            i = i + 1;
        }
        let end_pos = self.pos;
        proof {
            assert(groups@.map_values(|g: SectionGroup| g.model()) + Seq::<
                SectionGroupModel,
            >::empty() =~= groups@.map_values(|g: SectionGroup| g.model()));
        }
        let mut raw: Vec<u8> = Vec::new();
        let mut k: usize = start_pos;
        proof {
            assert(raw@ =~= buf.subrange(pos0, pos0));
        }
        while k < end_pos
            invariant
                buf.len() == 512,
                self.inner@ == buf,
                start_pos <= k <= end_pos,
                end_pos <= 512,
                raw@ == buf.subrange(start_pos as int, k as int),
            decreases end_pos - k,
        {
            let b = self.inner[k];
            raw.push(b);
            proof {
                assert(buf.subrange(start_pos as int, k + 1) =~= buf.subrange(
                    start_pos as int,
                    k as int,
                ).push(b));
            }
            k = k + 1;
        }
        let s = Section::new(groups, raw);
        proof {
            let res = spec_section_at(buf, pos0, count, is_asection);
            assert(s.model() =~= res->Ok_0.0);
        }
        Ok(s)
    }

    /// Decode the fixed 12-byte header at the cursor.
    pub fn unpack_dns_header(&mut self) -> (r: Result<DnsHeader, UnpackError>)
        ensures
            final(self).inner@ == old(self).inner@,
            ({
                let res = spec_unpack_header(old(self).inner@, old(self).pos as int);
                match r {
                    Ok(h) => res is Ok && h == res->Ok_0.0 && final(self).pos as int == res->Ok_0.1
                        && final(self).pos <= 512,
                    Err(e) => res is Err && res->Err_0 == e,
                }
            }),
    {
        let ghost buf = self.inner@;
        let ghost pos0 = self.pos as int;
        let txid = match self.get_u16() {
            Ok(v) => v,
            Err(e) => {
                return Err(UnpackError::Buffer(e));
            },
        };
        let first_half = match self.get_u8() {
            Ok(v) => v,
            Err(e) => {
                return Err(UnpackError::Buffer(e));
            },
        };
        let second_half = match self.get_u8() {
            Ok(v) => v,
            Err(e) => {
                return Err(UnpackError::Buffer(e));
            },
        };
        let qdcount = match self.get_u16() {
            Ok(v) => v,
            Err(e) => {
                return Err(UnpackError::Buffer(e));
            },
        };
        let ancount = match self.get_u16() {
            Ok(v) => v,
            Err(e) => {
                return Err(UnpackError::Buffer(e));
            },
        };
        let nscount = match self.get_u16() {
            Ok(v) => v,
            Err(e) => {
                return Err(UnpackError::Buffer(e));
            },
        };
        let arcount = match self.get_u16() {
            Ok(v) => v,
            Err(e) => {
                return Err(UnpackError::Buffer(e));
            },
        };
        proof {
            let sub = buf.subrange(pos0, pos0 + 12);
            assert forall|k: int| 0 <= k < 12 implies sub[k] == buf[pos0 + k] by {}
        }
        let fh = match HeaderSecondRowFirstHalf::try_from(first_half) {
            Ok(v) => v,
            Err(e) => {
                return Err(UnpackError::Parse(e));
            },
        };
        let sh = match HeaderSecondRowSecondHalf::try_from(second_half) {
            Ok(v) => v,
            Err(e) => {
                return Err(UnpackError::Parse(e));
            },
        };
        let counts = SectionCount::new(qdcount, ancount, nscount, arcount);
        Ok(DnsHeader::new(txid, fh, sh, counts))
    }

    /// Decode a whole message: the header, then each of the four sections its
    /// counts reserve. A question-section failure is tolerated: the message is
    /// returned with no sections and decoding is abandoned at that point. A
    /// failure in any later section fails the whole message.
    pub fn unpack(self) -> (r: Result<(DnsHeader, [Option<Section>; 4]), UnpackError>)
        requires
            self.pos == 0,
        ensures
            ({
                let res = spec_unpack(self.inner@);
                match r {
                    Ok(p) => res is Ok && p.0 == res->Ok_0.0 && spec_opt_section_model(p.1@[0])
                        == res->Ok_0.1.0 && spec_opt_section_model(p.1@[1]) == res->Ok_0.1.1
                        && spec_opt_section_model(p.1@[2]) == res->Ok_0.1.2
                        && spec_opt_section_model(p.1@[3]) == res->Ok_0.1.3 && p.1@.len() == 4,
                    Err(e) => res is Err && res->Err_0 == e,
                }
            }),
    {
        let mut cursor = self;
        let ghost buf = cursor.inner@;
        let hdr = match cursor.unpack_dns_header() {
            Ok(h) => h,
            Err(e) => {
                return Err(e);
            },
        };
        let qdcount = hdr.counts().qdcount();
        let ancount = hdr.counts().ancount();
        let nscount = hdr.counts().nscount();
        let arcount = hdr.counts().arcount();
        let mut s0: Option<Section> = Option::None;
        let mut s1: Option<Section> = Option::None;
        let mut s2: Option<Section> = Option::None;
        let mut s3: Option<Section> = Option::None;
        if qdcount > 0 {
            match cursor.unpack_section(qdcount, false) {
                Ok(s) => {
                    s0 = Option::Some(s);
                },
                Err(_e) => {
                    return Ok((hdr, [Option::None, Option::None, Option::None, Option::None]));
                },
            }
        }
        if ancount > 0 {
            match cursor.unpack_section(ancount, true) {
                Ok(s) => {
                    s1 = Option::Some(s);
                },
                Err(e) => {
                    return Err(e);
                },
            }
        }
        if nscount > 0 {
            match cursor.unpack_section(nscount, true) {
                Ok(s) => {
                    s2 = Option::Some(s);
                },
                Err(e) => {
                    return Err(e);
                },
            }
        }
        if arcount > 0 {
            match cursor.unpack_section(arcount, true) {
                Ok(s) => {
                    s3 = Option::Some(s);
                },
                Err(e) => {
                    return Err(e);
                },
            }
        }
        Ok((hdr, [s0, s1, s2, s3]))
    }

}

} // verus!
