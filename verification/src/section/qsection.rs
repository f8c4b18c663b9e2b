//! Question-section views of a record: the query-only type and class codes
//! layered over the plain record types.
use crate::error::ParseError;
use crate::section::{spec_type_decode, type_value, Section, Type};
use vstd::prelude::*;

verus! {

/// A question section together with each question's parsed name and codes.
#[derive(Debug, Clone, PartialEq)]
pub struct QSection {
    pub inner: Section,
    pub domains: Vec<(String, QType, QClass)>,
}

/// A question type: any plain record type, or one of the query-only codes.
#[derive(Debug, Clone, PartialEq)]
pub enum QType {
    NormalType(Type),
    Axfr,
    MailB,
    MailA,
    Any,
}

/// A question class: a plain record type code, or the query-only wildcard.
#[derive(Debug, Clone, PartialEq)]
pub enum QClass {
    NormalType(Type),
    Any,
}

pub open spec fn qtype_value(q: QType) -> u8 {
    match q {
        QType::NormalType(t) => type_value(t),
        QType::Axfr => 252,
        QType::MailB => 253,
        QType::MailA => 254,
        QType::Any => 255,
    }
}

/// Wire values 252-255 are the query-only types; anything else must name a
/// plain record type.
pub open spec fn spec_qtype_decode(value: u16) -> Result<QType, ParseError> {
    if value == 252 {
        Ok(QType::Axfr)
    } else if value == 253 {
        Ok(QType::MailB)
    } else if value == 254 {
        Ok(QType::MailA)
    } else if value == 255 {
        Ok(QType::Any)
    } else {
        match spec_type_decode(value) {
            Ok(t) => Ok(QType::NormalType(t)),
            Err(e) => Err(e),
        }
    }
}

/// Wire value 255 is the wildcard class; anything else must name a plain
/// record type code.
pub open spec fn spec_qclass_decode(value: u16) -> Result<QClass, ParseError> {
    if value == 255 {
        Ok(QClass::Any)
    } else {
        match spec_type_decode(value) {
            Ok(t) => Ok(QClass::NormalType(t)),
            Err(e) => Err(e),
        }
    }
}

impl QType {
    pub fn to_u8(&self) -> (r: u8)
        ensures
            r == qtype_value(*self),
    {
        match self {
            QType::NormalType(t) => t.to_u8(),
            QType::Axfr => 252,
            QType::MailB => 253,
            QType::MailA => 254,
            QType::Any => 255,
        }
    }

    pub fn try_from(value: u16) -> (r: Result<Self, ParseError>)
        ensures
            r == spec_qtype_decode(value),
    {
        match value {
            252 => Ok(QType::Axfr),
            253 => Ok(QType::MailB),
            254 => Ok(QType::MailA),
            255 => Ok(QType::Any),
            _ => match Type::try_from(value) {
                Ok(t) => Ok(QType::NormalType(t)),
                Err(e) => Err(e),
            },
        }
    }
}

impl QClass {
    pub fn try_from(value: u16) -> (r: Result<Self, ParseError>)
        ensures
            r == spec_qclass_decode(value),
    {
        match value {
            255 => Ok(QClass::Any),
            _ => match Type::try_from(value) {
                Ok(t) => Ok(QClass::NormalType(t)),
                Err(e) => Err(e),
            },
        }
    }
}

} // verus!
