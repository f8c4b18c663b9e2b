//! The slice-based record parser: a dotted domain string with its raw bytes,
//! then the record type and class. Compression pointers are not followed
//! here; every failure of this parser surfaces as a section error, as its
//! callers cannot tell the causes apart.
use crate::buffer::is_label_byte;
use crate::parser::answer::parse_single_asection;
use crate::parser::answer::spec_parse_single_asection;
use crate::parser::answer::ASection;
use crate::parser::answer::ASectionModel;
use crate::parser::question::parse_single_qsection;
use crate::parser::question::QSection;
use crate::buffer::label_chars;
use crate::error::ParseError;
use crate::header::spec_u16_from_bytes;
use vstd::prelude::*;

verus! {

/// What both kinds of parsed record offer: their wire bytes and the base
/// record inside them.
pub trait SectionBytes {
    fn into_bytes(self) -> Vec<u8> where Self: core::marker::Sized;

    fn section(&self) -> &Section;
}

/// The classic record types again, for the slice-based parser.
#[derive(Debug, Clone, Copy, PartialEq, Eq, Structural)]
pub enum RRType {
    A,
    NS,
    MD,
    MF,
    CNAME,
    SOA,
    MB,
    MG,
    MR,
    NULL,
    WKS,
    PTR,
    HINFO,
    MINFO,
    MX,
    TXT,
}

/// The record classes again, for the slice-based parser.
#[derive(Debug, Clone, Copy, PartialEq, Eq, Structural)]
pub enum RRClass {
    Internet,
    Csnet,
    Chaos,
    Hesiod,
}

pub open spec fn rrtype_value(t: RRType) -> u16 {
    match t {
        RRType::A => 1,
        RRType::NS => 2,
        RRType::MD => 3,
        RRType::MF => 4,
        RRType::CNAME => 5,
        RRType::SOA => 6,
        RRType::MB => 7,
        RRType::MG => 8,
        RRType::MR => 9,
        RRType::NULL => 10,
        RRType::WKS => 11,
        RRType::PTR => 12,
        RRType::HINFO => 13,
        RRType::MINFO => 14,
        RRType::MX => 15,
        RRType::TXT => 16,
    }
}

pub open spec fn rrclass_value(c: RRClass) -> u16 {
    match c {
        RRClass::Internet => 1,
        RRClass::Csnet => 2,
        RRClass::Chaos => 3,
        RRClass::Hesiod => 4,
    }
}

pub open spec fn spec_rrtype_decode(value: u16) -> Result<RRType, ParseError> {
    if value == 1 {
        Ok(RRType::A)
    } else if value == 2 {
        Ok(RRType::NS)
    } else if value == 3 {
        Ok(RRType::MD)
    } else if value == 4 {
        Ok(RRType::MF)
    } else if value == 5 {
        Ok(RRType::CNAME)
    } else if value == 6 {
        Ok(RRType::SOA)
    } else if value == 7 {
        Ok(RRType::MB)
    } else if value == 8 {
        Ok(RRType::MG)
    } else if value == 9 {
        Ok(RRType::MR)
    } else if value == 10 {
        Ok(RRType::NULL)
    } else if value == 11 {
        Ok(RRType::WKS)
    } else if value == 12 {
        Ok(RRType::PTR)
    } else if value == 13 {
        Ok(RRType::HINFO)
    } else if value == 14 {
        Ok(RRType::MINFO)
    } else if value == 15 {
        Ok(RRType::MX)
    } else if value == 16 {
        Ok(RRType::TXT)
    } else {
        Err(ParseError::UnimplementedError)
    }
}

pub open spec fn spec_rrclass_decode(value: u16) -> Result<RRClass, ParseError> {
    if value == 1 {
        Ok(RRClass::Internet)
    } else if value == 2 {
        Ok(RRClass::Csnet)
    } else if value == 3 {
        Ok(RRClass::Chaos)
    } else if value == 4 {
        Ok(RRClass::Hesiod)
    } else {
        Err(ParseError::UnimplementedError)
    }
}

impl RRType {
    pub fn try_from(value: u16) -> (r: Result<Self, ParseError>)
        ensures
            r == spec_rrtype_decode(value),
    {
        match value {
            1 => Ok(RRType::A),
            2 => Ok(RRType::NS),
            3 => Ok(RRType::MD),
            4 => Ok(RRType::MF),
            5 => Ok(RRType::CNAME),
            6 => Ok(RRType::SOA),
            7 => Ok(RRType::MB),
            8 => Ok(RRType::MG),
            9 => Ok(RRType::MR),
            10 => Ok(RRType::NULL),
            11 => Ok(RRType::WKS),
            12 => Ok(RRType::PTR),
            13 => Ok(RRType::HINFO),
            14 => Ok(RRType::MINFO),
            15 => Ok(RRType::MX),
            16 => Ok(RRType::TXT),
            _ => Err(ParseError::UnimplementedError),
        }
    }

    /// The type's wire value as two big-endian bytes.
    pub fn to_bytes(&self) -> (r: [u8; 2])
        ensures
            r@ == crate::spec_u16_be_bytes(rrtype_value(*self)),
    {
        let v = match self {
            RRType::A => 1u16,
            RRType::NS => 2,
            RRType::MD => 3,
            RRType::MF => 4,
            RRType::CNAME => 5,
            RRType::SOA => 6,
            RRType::MB => 7,
            RRType::MG => 8,
            RRType::MR => 9,
            RRType::NULL => 10,
            RRType::WKS => 11,
            RRType::PTR => 12,
            RRType::HINFO => 13,
            RRType::MINFO => 14,
            RRType::MX => 15,
            RRType::TXT => 16,
        };
        crate::big_endian_convert_u16_to_u8_array(v)
    }
}

impl RRClass {
    pub fn try_from(value: u16) -> (r: Result<Self, ParseError>)
        ensures
            r == spec_rrclass_decode(value),
    {
        match value {
            1 => Ok(RRClass::Internet),
            2 => Ok(RRClass::Csnet),
            3 => Ok(RRClass::Chaos),
            4 => Ok(RRClass::Hesiod),
            _ => Err(ParseError::UnimplementedError),
        }
    }

    /// The class's wire value as two big-endian bytes.
    pub fn to_bytes(&self) -> (r: [u8; 2])
        ensures
            r@ == crate::spec_u16_be_bytes(rrclass_value(*self)),
    {
        let v = match self {
            RRClass::Internet => 1u16,
            RRClass::Csnet => 2,
            RRClass::Chaos => 3,
            RRClass::Hesiod => 4,
        };
        crate::big_endian_convert_u16_to_u8_array(v)
    }
}

/// One parsed record: the dotted domain string, the raw name bytes, and the
/// type and class.
#[derive(Debug, Clone, PartialEq)]
pub struct Section {
    pub domain: String,
    pub raw_domain: Vec<u8>,
    pub rr_type: RRType,
    pub rr_class: RRClass,
}

/// The mathematical shape of a parsed record.
#[verifier::ext_equal]
pub struct PSectionModel {
    pub domain: Seq<char>,
    pub raw: Seq<u8>,
    pub rr_type: RRType,
    pub rr_class: RRClass,
}

impl Section {
    pub open spec fn model(self) -> PSectionModel {
        PSectionModel {
            domain: self.domain@,
            raw: self.raw_domain@,
            rr_type: self.rr_type,
            rr_class: self.rr_class,
        }
    }

    pub fn new(domain: String, raw_domain: Vec<u8>, rr_type: RRType, rr_class: RRClass) -> (r: Self)
        ensures
            r.domain == domain,
            r.raw_domain == raw_domain,
            r.rr_type == rr_type,
            r.rr_class == rr_class,
    {
        Section { domain, raw_domain, rr_type, rr_class }
    }

    /// The raw name bytes followed by the type and class bytes.
    pub fn into_bytes(self) -> (r: Vec<u8>)
        ensures
            r@ == self.raw_domain@ + crate::spec_u16_be_bytes(rrtype_value(self.rr_type))
                + crate::spec_u16_be_bytes(rrclass_value(self.rr_class)),
    {
        let mut res = self.raw_domain;
        let rr_type = self.rr_type.to_bytes();
        let rr_class = self.rr_class.to_bytes();
        res.push(rr_type[0]);
        res.push(rr_type[1]);
        res.push(rr_class[0]);
        res.push(rr_class[1]);
        proof {
            assert(res@ =~= self.raw_domain@ + crate::spec_u16_be_bytes(
                rrtype_value(self.rr_type),
            ) + crate::spec_u16_be_bytes(rrclass_value(self.rr_class)));
        }
        res
    }
}

/// A name scanned without following pointers: the labels found, the raw bytes
/// consumed, and the position after them. Running off the slice before a
/// terminator ends the name silently; an invalid label byte, or a length that
/// runs past the slice, is a section error.
pub open spec fn spec_name_scan(b: Seq<u8>, pos: int) -> Result<
    (Seq<Seq<char>>, Seq<u8>, int),
    ParseError,
>
    decreases b.len() - pos,
{
    if !(0 <= pos < b.len()) {
        Ok((Seq::empty(), Seq::empty(), pos))
    } else {
        let len = b[pos];
        if len == 0 {
            Ok((Seq::empty(), seq![0u8], pos + 1))
        } else {
            let avail = if pos + 1 + len <= b.len() {
                len as int
            } else {
                b.len() - (pos + 1)
            };
            if exists|j: int| 0 <= j < avail && !is_label_byte(#[trigger] b[pos + 1 + j]) {
                Err(ParseError::SectionError)
            } else if pos + 1 + len > b.len() {
                Err(ParseError::SectionError)
            } else {
                match spec_name_scan(b, pos + 1 + len) {
                    Ok(r) => Ok(
                        (
                            seq![label_chars(b, pos + 1, len as int)] + r.0,
                            seq![len] + b.subrange(pos + 1, pos + 1 + len) + r.1,
                            r.2,
                        ),
                    ),
                    Err(e) => Err(e),
                }
            }
        }
    }
}

/// Law: here too, a label byte outside ASCII alphanumerics and hyphen fails
/// the scan with a section error, for any such byte at any reachable label
/// position.
pub proof fn lemma_name_scan_charset(b: Seq<u8>, pos: int, j: int)
    requires
        0 <= pos < b.len(),
        b[pos] != 0,
        0 <= j < b[pos],
        pos + 1 + j < b.len(),
        !is_label_byte(b[pos + 1 + j]),
    ensures
        spec_name_scan(b, pos) == Err::<(Seq<Seq<char>>, Seq<u8>, int), ParseError>(
            ParseError::SectionError,
        ),
{
    let len = b[pos];
    let avail = if pos + 1 + len <= b.len() {
        len as int
    } else {
        b.len() - (pos + 1)
    };
    assert(j < avail);
    assert(exists|k: int| 0 <= k < avail && !is_label_byte(#[trigger] b[pos + 1 + k]));
}

/// Labels joined with single dots, no trailing dot.
pub open spec fn spec_join_dots(ls: Seq<Seq<char>>) -> Seq<char>
    decreases ls.len(),
{
    if ls.len() == 0 {
        Seq::empty()
    } else if ls.len() == 1 {
        ls[0]
    } else {
        ls[0] + seq!['.'] + spec_join_dots(ls.drop_first())
    }
}

/// Appending one label extends the dotted form with a separator exactly when
/// labels were already present.
pub proof fn lemma_join_dots_push(ls: Seq<Seq<char>>, l: Seq<char>)
    ensures
        spec_join_dots(ls.push(l)) == if ls.len() == 0 {
            l
        } else {
            spec_join_dots(ls) + seq!['.'] + l
        },
    decreases ls.len(),
{
    let p = ls.push(l);
    if ls.len() == 0 {
        assert(p.len() == 1);
        assert(p[0] == l);
    } else {
        assert(p[0] == ls[0]);
        assert(p.drop_first() =~= ls.drop_first().push(l));
        lemma_join_dots_push(ls.drop_first(), l);
        if ls.len() == 1 {
            assert(ls.drop_first().len() == 0);
            assert(spec_join_dots(p) == ls[0] + seq!['.'] + l);
            assert(spec_join_dots(ls) == ls[0]);
        } else {
            assert(spec_join_dots(p) == p[0] + seq!['.'] + spec_join_dots(p.drop_first()));
            assert(spec_join_dots(p.drop_first()) == spec_join_dots(ls.drop_first()) + seq!['.']
                + l);
            assert(ls[0] + seq!['.'] + (spec_join_dots(ls.drop_first()) + seq!['.'] + l) =~= (ls[0]
                + seq!['.'] + spec_join_dots(ls.drop_first())) + seq!['.'] + l);
        }
    }
}

/// One record parsed at `pos`: its model and the position after it. The name
/// scan's failures pass through; missing type or class bytes, or values that
/// name no type or class, are all section errors, as the parser cannot tell
/// them apart.
pub open spec fn spec_parse_single_section(b: Seq<u8>, pos: int) -> Result<
    (PSectionModel, int),
    ParseError,
> {
    match spec_name_scan(b, pos) {
        Err(e) => Err(e),
        Ok(name) => {
            if name.2 + 4 > b.len() {
                Err(ParseError::SectionError)
            } else {
                let t = spec_u16_from_bytes(b[name.2], b[name.2 + 1]);
                let c = spec_u16_from_bytes(b[name.2 + 2], b[name.2 + 3]);
                match (spec_rrtype_decode(t), spec_rrclass_decode(c)) {
                    (Ok(ty), Ok(cl)) => Ok(
                        (
                            PSectionModel {
                                domain: spec_join_dots(name.0),
                                raw: name.1,
                                rr_type: ty,
                                rr_class: cl,
                            },
                            name.2 + 4,
                        ),
                    ),
                    _ => Err(ParseError::SectionError),
                }
            }
        },
    }
}

/// Parse one record at `*pos`, advancing past it on success.
pub fn parse_single_section(data: &[u8], pos: &mut usize) -> (r: Result<Section, ParseError>)
    requires
        *old(pos) <= data@.len(),
    ensures
        ({
            let res = spec_parse_single_section(data@, *old(pos) as int);
            match r {
                Ok(s) => res is Ok && s.model() == res->Ok_0.0 && *final(pos) == res->Ok_0.1
                    && *final(pos) <= data@.len(),
                Err(e) => res is Err && res->Err_0 == e,
            }
        }),
{
    let ghost b = data@;
    let ghost pos0 = *pos as int;
    let mut p: usize = *pos;
    let mut domain = String::new();
    let mut raw_domain: Vec<u8> = Vec::new();
    let ghost mut collected: Seq<Seq<char>> = Seq::empty();
    proof {
        if spec_name_scan(b, pos0) is Ok {
            let n = spec_name_scan(b, pos0)->Ok_0;
            assert(Seq::<Seq<char>>::empty() + n.0 =~= n.0);
            assert(Seq::<u8>::empty() + n.1 =~= n.1);
        }
    }
    loop
        invariant_except_break
            b == data@,
            pos0 == *old(pos) as int,
            p <= b.len(),
            domain@ == spec_join_dots(collected),
            (domain@.len() == 0) == (collected.len() == 0),
            ({
                let cur = spec_name_scan(b, p as int);
                match cur {
                    Ok(n) => spec_name_scan(b, pos0) == Ok::<
                        (Seq<Seq<char>>, Seq<u8>, int),
                        ParseError,
                    >((collected + n.0, raw_domain@ + n.1, n.2)),
                    Err(e) => spec_name_scan(b, pos0) == Err::<
                        (Seq<Seq<char>>, Seq<u8>, int),
                        ParseError,
                    >(e),
                }
            }),
        ensures
            b == data@,
            pos0 == *old(pos) as int,
            p <= b.len(),
            spec_name_scan(b, pos0) is Ok,
            ({
                let n = spec_name_scan(b, pos0)->Ok_0;
                domain@ == spec_join_dots(n.0) && raw_domain@ == n.1 && p as int == n.2
            }),
        decreases b.len() - p,
    {
        if p >= data.len() {
            proof {
                assert(collected + Seq::<Seq<char>>::empty() =~= collected);
                assert(raw_domain@ + Seq::<u8>::empty() =~= raw_domain@);
            }
            break ;
        }
        let ghost lp = p as int;
        let ghost raw_head = raw_domain@;
        let ghost collected_head = collected;
        let len_byte = data[p];
        raw_domain.push(len_byte);
        p = p + 1;
        if len_byte == 0 {
            proof {
                assert(collected + Seq::<Seq<char>>::empty() =~= collected);
                assert(raw_head + seq![0u8] =~= raw_domain@);
            }
            break ;
        }
        let llen = len_byte as usize;
        let mut label = String::new();
        let mut j: usize = 0;
        while j < llen && p < data.len()
            invariant
                b == data@,
                pos0 == *old(pos) as int,
                0 <= lp < b.len(),
                b[lp] == len_byte,
                len_byte != 0,
                0 <= j <= llen,
                llen == len_byte as int,
                lp + 1 + j == p,
                p <= b.len(),
                label@ == label_chars(b, lp + 1, j as int),
                raw_domain@ == raw_head + seq![len_byte] + b.subrange(lp + 1, p as int),
                forall|k: int| 0 <= k < j ==> is_label_byte(#[trigger] b[lp + 1 + k]),
                ({
                    let cur = spec_name_scan(b, lp);
                    match cur {
                        Ok(n) => spec_name_scan(b, pos0) == Ok::<
                            (Seq<Seq<char>>, Seq<u8>, int),
                            ParseError,
                        >((collected_head + n.0, raw_head + n.1, n.2)),
                        Err(e) => spec_name_scan(b, pos0) == Err::<
                            (Seq<Seq<char>>, Seq<u8>, int),
                            ParseError,
                        >(e),
                    }
                }),
            decreases llen - j,
        {
            let c = data[p];
            if !((0x30 <= c && c <= 0x39) || (0x41 <= c && c <= 0x5A) || (0x61 <= c && c <= 0x7A)
                || c == 0x2D) {
                proof {
                    assert(!is_label_byte(b[lp + 1 + j as int]));
                    assert(spec_name_scan(b, lp) == Err::<
                        (Seq<Seq<char>>, Seq<u8>, int),
                        ParseError,
                    >(ParseError::SectionError));
                }
                return Err(ParseError::SectionError);
            }
            crate::push_char(&mut label, c as char);
            raw_domain.push(c);
            proof {
                assert(label@ =~= label_chars(b, lp + 1, j + 1));
                assert(raw_domain@ =~= raw_head + seq![len_byte] + b.subrange(lp + 1, p + 1));
            }
            j = j + 1;
            p = p + 1;
        }
        if j < llen {
            // the slice ended inside the label
            proof {
                let avail = b.len() - (lp + 1);
                assert(j == avail);
                assert(lp + 1 + len_byte > b.len());
                assert(forall|k: int| 0 <= k < avail ==> is_label_byte(#[trigger] b[lp + 1 + k]));
                assert(spec_name_scan(b, lp) == Err::<(Seq<Seq<char>>, Seq<u8>, int), ParseError>(
                    ParseError::SectionError,
                ));
            }
            return Err(ParseError::SectionError);
        }
        // the label is complete and valid
        proof {
            assert(lp + 1 + llen <= b.len());
            assert(label@ == label_chars(b, lp + 1, llen as int));
        }
        let ghost dpre = domain@;
        if domain.as_str().is_empty() {
            vstd::string::StringExecFns::append(&mut domain, label.as_str());
        } else {
            vstd::string::StringExecFns::append(&mut domain, ".");
            vstd::string::StringExecFns::append(&mut domain, label.as_str());
        }
        proof {
            reveal_strlit(".");
            assert(("."@) =~= seq!['.']);
            lemma_join_dots_push(collected_head, label@);
            if collected_head.len() == 0 {
                assert(dpre.len() == 0);
                assert(dpre =~= Seq::<char>::empty());
                assert(domain@ =~= Seq::<char>::empty() + label@);
                assert(domain@ =~= label@);
                assert(domain@ =~= spec_join_dots(collected_head.push(label@)));
            } else {
                assert(dpre.len() != 0);
                assert(domain@ =~= (dpre + ("."@)) + label@);
                assert(domain@ =~= spec_join_dots(collected_head) + seq!['.'] + label@);
                assert(domain@ =~= spec_join_dots(collected_head.push(label@)));
            }
            assert(label@.len() > 0);
            collected = collected_head.push(label@);
            let cur = spec_name_scan(b, lp);
            let next = spec_name_scan(b, lp + 1 + llen);
            if next is Ok {
                let n2 = next->Ok_0;
                assert(cur == Ok::<(Seq<Seq<char>>, Seq<u8>, int), ParseError>(
                    (
                        seq![label_chars(b, lp + 1, llen as int)] + n2.0,
                        seq![len_byte] + b.subrange(lp + 1, lp + 1 + llen) + n2.1,
                        n2.2,
                    ),
                ));
                assert(collected_head + (seq![label_chars(b, lp + 1, llen as int)] + n2.0)
                    =~= collected + n2.0);
                assert(raw_head + (seq![len_byte] + b.subrange(lp + 1, lp + 1 + llen) + n2.1)
                    =~= raw_domain@ + n2.1);
            }
        }
    }
    // the name is done; four bytes of type and class follow
    if data.len() - p < 4 {
        return Err(ParseError::SectionError);
    }
    let t = ((data[p] as u16) << 8) | (data[p + 1] as u16);
    let c = ((data[p + 2] as u16) << 8) | (data[p + 3] as u16);
    let rr_type = match RRType::try_from(t) {
        Ok(v) => v,
        Err(_e) => {
            return Err(ParseError::SectionError);
        },
    };
    let rr_class = match RRClass::try_from(c) {
        Ok(v) => v,
        Err(_e) => {
            return Err(ParseError::SectionError);
        },
    };
    *pos = p + 4;
    Ok(Section { domain, raw_domain, rr_type, rr_class })
}

/// `n` question records parsed in sequence from `pos`.
pub open spec fn spec_parse_qsections(b: Seq<u8>, pos: int, n: int) -> Result<
    (Seq<PSectionModel>, int),
    ParseError,
>
    decreases n,
{
    if n <= 0 {
        Ok((Seq::empty(), pos))
    } else {
        match spec_parse_single_section(b, pos) {
            Err(e) => Err(e),
            Ok(s) => match spec_parse_qsections(b, s.1, n - 1) {
                Err(e) => Err(e),
                Ok(r) => Ok((seq![s.0] + r.0, r.1)),
            },
        }
    }
}

/// `n` answer-style records parsed in sequence from `pos`.
pub open spec fn spec_parse_asections(b: Seq<u8>, pos: int, n: int) -> Result<
    (Seq<ASectionModel>, int),
    ParseError,
>
    decreases n,
{
    if n <= 0 {
        Ok((Seq::empty(), pos))
    } else {
        match spec_parse_single_asection(b, pos) {
            Err(e) => Err(e),
            Ok(s) => match spec_parse_asections(b, s.1, n - 1) {
                Err(e) => Err(e),
                Ok(r) => Ok((seq![s.0] + r.0, r.1)),
            },
        }
    }
}

/// Parse `qdcount` question records and then `ancount` answer records from
/// the front of a slice.
pub fn parse_all_sections(value: &[u8], qdcount: u16, ancount: u16) -> (r: Result<
    (Vec<QSection>, Vec<ASection>),
    ParseError,
>)
    ensures
        ({
            let q = spec_parse_qsections(value@, 0, qdcount as int);
            match r {
                Ok(pair) => q is Ok && ({
                    let a = spec_parse_asections(value@, q->Ok_0.1, ancount as int);
                    a is Ok && pair.0@.map_values(|x: QSection| x.model()) == q->Ok_0.0
                        && pair.1@.map_values(|x: ASection| x.model()) == a->Ok_0.0
                }),
                Err(e) => (q is Err && q->Err_0 == e) || (q is Ok && ({
                    let a = spec_parse_asections(value@, q->Ok_0.1, ancount as int);
                    a is Err && a->Err_0 == e
                })),
            }
        }),
{
    let ghost b = value@;
    let mut cursor: usize = 0;
    let mut qsecs: Vec<QSection> = Vec::new();
    let mut asecs: Vec<ASection> = Vec::new();
    let mut i: u16 = 0;
    proof {
        if spec_parse_qsections(b, 0, qdcount as int) is Ok {
            let q = spec_parse_qsections(b, 0, qdcount as int)->Ok_0;
            assert(Seq::<PSectionModel>::empty() + q.0 =~= q.0);
        }
        assert(qsecs@.map_values(|x: QSection| x.model()) =~= Seq::<PSectionModel>::empty());
    }
    while i < qdcount
        invariant
            b == value@,
            cursor <= b.len(),
            0 <= i <= qdcount,
            ({
                let rest = spec_parse_qsections(b, cursor as int, qdcount as int - i as int);
                match rest {
                    Ok(q) => spec_parse_qsections(b, 0, qdcount as int) == Ok::<
                        (Seq<PSectionModel>, int),
                        ParseError,
                    >((qsecs@.map_values(|x: QSection| x.model()) + q.0, q.1)),
                    Err(e) => spec_parse_qsections(b, 0, qdcount as int) == Err::<
                        (Seq<PSectionModel>, int),
                        ParseError,
                    >(e),
                }
            }),
        decreases qdcount - i,
    {
        let ghost qm = qsecs@.map_values(|x: QSection| x.model());
        let ghost cp = cursor as int;
        match parse_single_qsection(value, &mut cursor) {
            Ok(qsection) => {
                qsecs.push(qsection);
                proof {
                    assert(qsecs@.map_values(|x: QSection| x.model()) =~= qm.push(
                        qsection.model(),
                    ));
                    let one = spec_parse_single_section(b, cp)->Ok_0;
                    let rest2 = spec_parse_qsections(b, one.1, qdcount as int - i as int - 1);
                    if rest2 is Ok {
                        let r2 = rest2->Ok_0;
                        assert(qm + (seq![one.0] + r2.0) =~= qm.push(qsection.model()) + r2.0);
                    }
                }
            },
            Err(e) => {
                return Err(e);
            },
        }
        i = i + 1;
    }
    proof {
        assert(qsecs@.map_values(|x: QSection| x.model()) + Seq::<PSectionModel>::empty()
            =~= qsecs@.map_values(|x: QSection| x.model()));
        if spec_parse_asections(b, cursor as int, ancount as int) is Ok {
            let a = spec_parse_asections(b, cursor as int, ancount as int)->Ok_0;
            assert(Seq::<ASectionModel>::empty() + a.0 =~= a.0);
        }
        assert(asecs@.map_values(|x: ASection| x.model()) =~= Seq::<ASectionModel>::empty());
    }
    let ghost astart = cursor as int;
    let mut k: u16 = 0;
    while k < ancount
        invariant
            b == value@,
            cursor <= b.len(),
            0 <= k <= ancount,
            ({
                let rest = spec_parse_asections(b, cursor as int, ancount as int - k as int);
                match rest {
                    Ok(a) => spec_parse_asections(b, astart, ancount as int) == Ok::<
                        (Seq<ASectionModel>, int),
                        ParseError,
                    >((asecs@.map_values(|x: ASection| x.model()) + a.0, a.1)),
                    Err(e) => spec_parse_asections(b, astart, ancount as int) == Err::<
                        (Seq<ASectionModel>, int),
                        ParseError,
                    >(e),
                }
            }),
            spec_parse_qsections(b, 0, qdcount as int) is Ok,
            spec_parse_qsections(b, 0, qdcount as int)->Ok_0.1 == astart,
            qsecs@.map_values(|x: QSection| x.model()) == spec_parse_qsections(
                b,
                0,
                qdcount as int,
            )->Ok_0.0,
        decreases ancount - k,
    {
        let ghost am = asecs@.map_values(|x: ASection| x.model());
        let ghost cp = cursor as int;
        match parse_single_asection(value, &mut cursor) {
            Ok(asection) => {
                asecs.push(asection);
                proof {
                    assert(asecs@.map_values(|x: ASection| x.model()) =~= am.push(
                        asection.model(),
                    ));
                    let one = spec_parse_single_asection(b, cp)->Ok_0;
                    let rest2 = spec_parse_asections(b, one.1, ancount as int - k as int - 1);
                    if rest2 is Ok {
                        let r2 = rest2->Ok_0;
                        assert(am + (seq![one.0] + r2.0) =~= am.push(asection.model()) + r2.0);
                    }
                }
            },
            Err(e) => {
                return Err(e);
            },
        }
        k = k + 1;
    }
    proof {
        assert(asecs@.map_values(|x: ASection| x.model()) + Seq::<ASectionModel>::empty()
            =~= asecs@.map_values(|x: ASection| x.model()));
    }
    Ok((qsecs, asecs))
}

} // verus!
