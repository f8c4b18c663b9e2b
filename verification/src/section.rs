//! Resource-record groups and sections: a decoded domain name with its record
//! type and class, an optional answer payload, and the exact raw bytes the
//! section spans in the source buffer.
use crate::error::ParseError;
use vstd::prelude::*;
use vstd::utf8::encode_utf8;

pub mod qsection;

verus! {

/// The answer payload of a record: TTL, resource-data length, resource data.
pub type AsectionContents = (u32, u16, Vec<u8>);

/// The classic record types, wire values 1 through 16.
#[derive(Debug, Clone, Copy, PartialEq, Eq, Structural)]
pub enum Type {
    A,
    Ns,
    Md,
    Mf,
    Cname,
    Soa,
    Mb,
    Mg,
    Mr,
    Null,
    Wks,
    Ptr,
    Hinfo,
    Minfo,
    Mx,
    Txt,
}

/// The record classes, wire values 1 through 4.
#[derive(Debug, Clone, Copy, PartialEq, Eq, Structural)]
pub enum Class {
    In,
    Cs,
    Ch,
    Hs,
}

pub open spec fn type_value(t: Type) -> u8 {
    match t {
        Type::A => 1,
        Type::Ns => 2,
        Type::Md => 3,
        Type::Mf => 4,
        Type::Cname => 5,
        Type::Soa => 6,
        Type::Mb => 7,
        Type::Mg => 8,
        Type::Mr => 9,
        Type::Null => 10,
        Type::Wks => 11,
        Type::Ptr => 12,
        Type::Hinfo => 13,
        Type::Minfo => 14,
        Type::Mx => 15,
        Type::Txt => 16,
    }
}

pub open spec fn class_value(c: Class) -> u8 {
    match c {
        Class::In => 1,
        Class::Cs => 2,
        Class::Ch => 3,
        Class::Hs => 4,
    }
}

/// Wire values 1-16 name a type; everything else is unassigned here.
pub open spec fn spec_type_decode(value: u16) -> Result<Type, ParseError> {
    if value == 1 {
        Ok(Type::A)
    } else if value == 2 {
        Ok(Type::Ns)
    } else if value == 3 {
        Ok(Type::Md)
    } else if value == 4 {
        Ok(Type::Mf)
    } else if value == 5 {
        Ok(Type::Cname)
    } else if value == 6 {
        Ok(Type::Soa)
    } else if value == 7 {
        Ok(Type::Mb)
    } else if value == 8 {
        Ok(Type::Mg)
    } else if value == 9 {
        Ok(Type::Mr)
    } else if value == 10 {
        Ok(Type::Null)
    } else if value == 11 {
        Ok(Type::Wks)
    } else if value == 12 {
        Ok(Type::Ptr)
    } else if value == 13 {
        Ok(Type::Hinfo)
    } else if value == 14 {
        Ok(Type::Minfo)
    } else if value == 15 {
        Ok(Type::Mx)
    } else if value == 16 {
        Ok(Type::Txt)
    } else {
        Err(ParseError::UnimplementedError)
    }
}

/// Wire values 1-4 name a class; everything else is unassigned here.
pub open spec fn spec_class_decode(value: u16) -> Result<Class, ParseError> {
    if value == 1 {
        Ok(Class::In)
    } else if value == 2 {
        Ok(Class::Cs)
    } else if value == 3 {
        Ok(Class::Ch)
    } else if value == 4 {
        Ok(Class::Hs)
    } else {
        Err(ParseError::UnimplementedError)
    }
}

impl Type {
    pub fn try_from(value: u16) -> (r: Result<Self, ParseError>)
        ensures
            r == spec_type_decode(value),
    {
        match value {
            1 => Ok(Type::A),
            2 => Ok(Type::Ns),
            3 => Ok(Type::Md),
            4 => Ok(Type::Mf),
            5 => Ok(Type::Cname),
            6 => Ok(Type::Soa),
            7 => Ok(Type::Mb),
            8 => Ok(Type::Mg),
            9 => Ok(Type::Mr),
            10 => Ok(Type::Null),
            11 => Ok(Type::Wks),
            12 => Ok(Type::Ptr),
            13 => Ok(Type::Hinfo),
            14 => Ok(Type::Minfo),
            15 => Ok(Type::Mx),
            16 => Ok(Type::Txt),
            _ => Err(ParseError::UnimplementedError),
        }
    }

    pub fn to_u8(&self) -> (r: u8)
        ensures
            r == type_value(*self),
    {
        match self {
            Type::A => 1,
            Type::Ns => 2,
            Type::Md => 3,
            Type::Mf => 4,
            Type::Cname => 5,
            Type::Soa => 6,
            Type::Mb => 7,
            Type::Mg => 8,
            Type::Mr => 9,
            Type::Null => 10,
            Type::Wks => 11,
            Type::Ptr => 12,
            Type::Hinfo => 13,
            Type::Minfo => 14,
            Type::Mx => 15,
            Type::Txt => 16,
        }
    }
}

impl Class {
    pub fn try_from(value: u16) -> (r: Result<Self, ParseError>)
        ensures
            r == spec_class_decode(value),
    {
        match value {
            1 => Ok(Class::In),
            2 => Ok(Class::Cs),
            3 => Ok(Class::Ch),
            4 => Ok(Class::Hs),
            _ => Err(ParseError::UnimplementedError),
        }
    }

    pub fn to_u8(&self) -> (r: u8)
        ensures
            r == class_value(*self),
    {
        match self {
            Class::In => 1,
            Class::Cs => 2,
            Class::Ch => 3,
            Class::Hs => 4,
        }
    }
}

/// One record: domain labels, type, class, and the answer payload where the
/// record belongs to an answer-style section.
#[derive(Debug, Clone, PartialEq)]
pub struct SectionGroup {
    pub domain: Vec<String>,
    pub group_type: Type,
    pub class: Class,
    pub asection: Option<AsectionContents>,
}

/// The mathematical shape of a record: labels as character sequences and the
/// payload data as a byte sequence.
#[verifier::ext_equal]
pub struct SectionGroupModel {
    pub domain: Seq<Seq<char>>,
    pub group_type: Type,
    pub class: Class,
    pub asection: Option<(u32, u16, Seq<u8>)>,
}

/// One decoded section: its records plus the exact raw bytes it spanned.
#[derive(Debug, Clone, PartialEq)]
pub struct Section {
    pub groups: Vec<SectionGroup>,
    pub raw_domain: Vec<u8>,
}

/// The mathematical shape of a section.
#[verifier::ext_equal]
pub struct SectionModel {
    pub groups: Seq<SectionGroupModel>,
    pub raw: Seq<u8>,
}

impl SectionGroup {
    pub open spec fn model(self) -> SectionGroupModel {
        SectionGroupModel {
            domain: self.domain@.map_values(|s: String| s@),
            group_type: self.group_type,
            class: self.class,
            asection: match self.asection {
                Option::Some((ttl, len, data)) => Option::Some((ttl, len, data@)),
                Option::None => Option::None,
            },
        }
    }

    pub fn new(
        domain: Vec<String>,
        group_type: Type,
        class: Class,
        asection: Option<AsectionContents>,
    ) -> (r: Self)
        ensures
            r.domain == domain,
            r.group_type == group_type,
            r.class == class,
            r.asection == asection,
    {
        Self { domain, group_type, class, asection }
    }

    pub fn domain(&self) -> (r: &Vec<String>)
        ensures
            r == &self.domain,
    {
        &self.domain
    }

    pub fn group_type(&self) -> (r: &Type)
        ensures
            *r == self.group_type,
    {
        &self.group_type
    }

    pub fn class(&self) -> (r: &Class)
        ensures
            *r == self.class,
    {
        &self.class
    }

    /// The record re-encoded as literal labels (compression is never
    /// re-emitted), the zero terminator, the two-byte type and class fields,
    /// then any payload.
    pub fn try_into_bytes(&self) -> (r: Result<Vec<u8>, ParseError>)
        ensures
            match r {
                Ok(v) => spec_encode_group(self.model()) == Ok::<Seq<u8>, ParseError>(v@),
                Err(e) => spec_encode_group(self.model()) == Err::<Seq<u8>, ParseError>(e),
            },
    {
        let ghost m = self.model();
        let ghost full = spec_encode_labels(m.domain);
        let mut res: Vec<u8> = Vec::new();
        let mut i: usize = 0;
        proof {
            assert(m.domain.skip(0) =~= m.domain);
        }
        while i < self.domain.len()
            invariant
                0 <= i <= self.domain.len(),
                m == self.model(),
                full == spec_encode_labels(m.domain),
                m.domain.len() == self.domain.len(),
                forall|k: int|
                    0 <= k < self.domain.len() ==> m.domain[k] == #[trigger] self.domain@[k]@,
                match spec_encode_labels(m.domain.skip(i as int)) {
                    Ok(rest) => full == Ok::<Seq<u8>, ParseError>(res@ + rest),
                    Err(e) => full == Err::<Seq<u8>, ParseError>(e),
                },
            decreases self.domain.len() - i,
        {
            let ghost old_res = res@;
            let ghost tail = m.domain.skip(i as int);
            let label = &self.domain[i];
            let bytes = label.as_str().as_bytes();
            proof {
                assert(tail.len() > 0);
                assert(tail[0] == m.domain[i as int]);
                assert(bytes@ == encode_utf8(m.domain[i as int]));
            }
            if bytes.len() > 255 {
                return Err(ParseError::ConversionError);
            }
            let len_byte: u8 = bytes.len() as u8;
            res.push(len_byte);
            let mut j: usize = 0;
            while j < bytes.len()
                invariant
                    0 <= j <= bytes.len(),
                    res@ == old_res + seq![len_byte] + bytes@.take(j as int),
                decreases bytes.len() - j,
            {
                let b = bytes[j];
                res.push(b);
                proof {
                    assert(bytes@.take(j + 1) =~= bytes@.take(j as int).push(b));
                    assert(res@ =~= old_res + seq![len_byte] + bytes@.take(j + 1));
                }
                j = j + 1;
            }
            proof {
                assert(bytes@.take(bytes@.len() as int) =~= bytes@);
                assert(res@ == old_res + seq![len_byte] + bytes@);
                assert(tail.drop_first() =~= m.domain.skip(i + 1));
                if spec_encode_labels(m.domain.skip(i + 1)) is Ok {
                    let rest = spec_encode_labels(m.domain.skip(i + 1))->Ok_0;
                    assert(spec_encode_labels(tail) == Ok::<Seq<u8>, ParseError>(
                        seq![len_byte] + bytes@ + rest,
                    ));
                    assert(old_res + (seq![len_byte] + bytes@ + rest) =~= res@ + rest);
                } else {
                    assert(spec_encode_labels(tail) == spec_encode_labels(m.domain.skip(i + 1)));
                }
            }
            i = i + 1;
        }
        proof {
            assert(m.domain.skip(m.domain.len() as int) =~= Seq::<Seq<char>>::empty());
            assert(res@ + Seq::<u8>::empty() =~= res@);
            assert(full == Ok::<Seq<u8>, ParseError>(res@));
        }
        let ghost labels_bytes = res@;
        res.push(0);
        res.push(0);
        res.push(self.group_type.to_u8());
        res.push(0);
        res.push(self.class.to_u8());
        proof {
            assert(res@ =~= labels_bytes + seq![
                0u8,
                0u8,
                type_value(m.group_type),
                0u8,
                class_value(m.class),
            ]);
        }
        let ghost head = res@;
        match &self.asection {
            Option::Some((ttl, length, data)) => {
                let t = crate::big_endian_convert_u32_to_u8_array(*ttl);
                res.push(t[0]);
                res.push(t[1]);
                res.push(t[2]);
                res.push(t[3]);
                let l = crate::big_endian_convert_u16_to_u8_array(*length);
                res.push(l[0]);
                res.push(l[1]);
                let ghost before_data = res@;
                proof {
                    assert(before_data =~= head + crate::spec_u32_be_bytes(*ttl)
                        + crate::spec_u16_be_bytes(*length));
                }
                let mut k: usize = 0;
                while k < data.len()
                    invariant
                        0 <= k <= data.len(),
                        res@ == before_data + data@.take(k as int),
                    decreases data.len() - k,
                {
                    let b = data[k];
                    res.push(b);
                    proof {
                        assert(data@.take(k + 1) =~= data@.take(k as int).push(b));
                        assert(res@ =~= before_data + data@.take(k + 1));
                    }
                    k = k + 1;
                }
                proof {
                    assert(data@.take(data@.len() as int) =~= data@);
                    assert(res@ =~= spec_encode_group(m)->Ok_0);
                }
                Ok(res)
            },
            Option::None => {
                proof {
                    assert(res@ =~= spec_encode_group(m)->Ok_0);
                }
                Ok(res)
            },
        }
    }
}

impl SectionGroup {
    /// Whether this record can be re-encoded: every label fits a one-byte
    /// length.
    pub fn encodable(&self) -> (r: bool)
        ensures
            r == (spec_encode_group(self.model()) is Ok),
    {
        let ghost m = self.model();
        proof {
            lemma_encode_labels_ok(m.domain);
        }
        let mut i: usize = 0;
        while i < self.domain.len()
            invariant
                m == self.model(),
                m.domain.len() == self.domain.len(),
                forall|k: int|
                    0 <= k < self.domain.len() ==> m.domain[k] == #[trigger] self.domain@[k]@,
                0 <= i <= self.domain.len(),
                forall|k: int| 0 <= k < i ==> encode_utf8(#[trigger] m.domain[k]).len() <= 255,
            decreases self.domain.len() - i,
        {
            let bytes = self.domain[i].as_str().as_bytes();
            if bytes.len() > 255 {
                proof {
                    lemma_encode_labels_ok(m.domain);
                    assert(encode_utf8(m.domain[i as int]).len() > 255);
                }
                return false;
            }
            i = i + 1;
        }
        true
    }
}

/// A run of labels encodes successfully exactly when each label's UTF-8 form
/// fits a one-byte length.
pub proof fn lemma_encode_labels_ok(ls: Seq<Seq<char>>)
    ensures
        (spec_encode_labels(ls) is Ok) <==> (forall|i: int|
            0 <= i < ls.len() ==> encode_utf8(#[trigger] ls[i]).len() <= 255),
    decreases ls.len(),
{
    if ls.len() > 0 {
        lemma_encode_labels_ok(ls.drop_first());
        assert forall|i: int|
            0 <= i < ls.drop_first().len() implies ls.drop_first()[i] == ls[i + 1] by {}
        if (forall|i: int| 0 <= i < ls.len() ==> encode_utf8(#[trigger] ls[i]).len() <= 255) {
            assert(spec_encode_labels(ls.drop_first()) is Ok);
        }
        if spec_encode_labels(ls) is Ok {
            assert forall|i: int|
                0 <= i < ls.len() implies encode_utf8(#[trigger] ls[i]).len() <= 255 by {
                if i > 0 {
                    assert(ls.drop_first()[i - 1] == ls[i]);
                }
            }
        }
    }
}

/// Length-prefixed encoding of each label in order; fails exactly when some
/// label's UTF-8 form does not fit a one-byte length.
pub open spec fn spec_encode_labels(labels: Seq<Seq<char>>) -> Result<Seq<u8>, ParseError>
    decreases labels.len(),
{
    if labels.len() == 0 {
        Ok(Seq::empty())
    } else {
        let b = encode_utf8(labels[0]);
        if b.len() > 255 {
            Err(ParseError::ConversionError)
        } else {
            match spec_encode_labels(labels.drop_first()) {
                Ok(rest) => Ok(seq![b.len() as u8] + b + rest),
                Err(e) => Err(e),
            }
        }
    }
}

/// The full wire encoding of a record, or the error its labels force.
pub open spec fn spec_encode_group(m: SectionGroupModel) -> Result<Seq<u8>, ParseError> {
    match spec_encode_labels(m.domain) {
        Err(e) => Err(e),
        Ok(lb) => {
            let head = lb + seq![
                0u8,
                0u8,
                type_value(m.group_type),
                0u8,
                class_value(m.class),
            ];
            match m.asection {
                Option::None => Ok(head),
                Option::Some((ttl, dlen, data)) => Ok(
                    head + crate::spec_u32_be_bytes(ttl) + crate::spec_u16_be_bytes(dlen) + data,
                ),
            }
        },
    }
}

impl Section {
    pub open spec fn model(self) -> SectionModel {
        SectionModel {
            groups: self.groups@.map_values(|g: SectionGroup| g.model()),
            raw: self.raw_domain@,
        }
    }

    pub fn new(groups: Vec<SectionGroup>, raw_domain: Vec<u8>) -> (r: Self)
        ensures
            r.groups == groups,
            r.raw_domain == raw_domain,
    {
        Self { groups, raw_domain }
    }

    /// The exact raw bytes the section spanned in its source buffer, for
    /// byte-for-byte forwarding without re-encoding.
    pub fn into_bytes(self) -> (r: Vec<u8>)
        ensures
            r@ == self.raw_domain@,
    {
        self.raw_domain
    }
}

} // verus!
