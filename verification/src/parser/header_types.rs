//! Field enums for the flat header parser, each with its wire value and its
//! decoding from the raw bits.
use crate::error::ParseError;
use vstd::prelude::*;

verus! {

#[derive(Default, Debug, Clone, Copy, PartialEq, Eq, Structural)]
pub enum QrIndicator {
    #[default]
    Question,
    Reply,
}

/// Opcodes 0-2 are defined; every other four-bit value is carried as a single
/// reserved-for-future-use variant rather than rejected.
#[derive(Default, Debug, Clone, Copy, PartialEq, Eq, Structural)]
pub enum OpCode {
    #[default]
    Query,
    IQuery,
    Status,
    FutureUse,
}

#[derive(Default, Debug, Clone, Copy, PartialEq, Eq, Structural)]
pub enum AuthAnswer {
    #[default]
    NotAuthoritative,
    Authoritative,
}

#[derive(Default, Debug, Clone, Copy, PartialEq, Eq, Structural)]
pub enum Truncation {
    #[default]
    NotTruncated,
    Truncated,
}

#[derive(Default, Debug, Clone, Copy, PartialEq, Eq, Structural)]
pub enum RecursionDesired {
    #[default]
    NoRecursion,
    Recursion,
}

#[derive(Default, Debug, Clone, Copy, PartialEq, Eq, Structural)]
pub enum RecursionStatus {
    #[default]
    NotAvailable,
    Available,
}

#[derive(Default, Debug, Clone, Copy, PartialEq, Eq, Structural)]
pub enum ResponseCode {
    #[default]
    NoError,
    FormatError,
    ServerFailure,
    NameError,
    NotImplemented,
    Refused,
}

pub open spec fn qr_ind_value(v: QrIndicator) -> u8 {
    match v {
        QrIndicator::Question => 0,
        QrIndicator::Reply => 1,
    }
}

pub open spec fn p_opcode_value(v: OpCode) -> u8 {
    match v {
        OpCode::Query => 0,
        OpCode::IQuery => 1,
        OpCode::Status => 2,
        OpCode::FutureUse => 3,
    }
}

pub open spec fn p_aa_value(v: AuthAnswer) -> u8 {
    match v {
        AuthAnswer::NotAuthoritative => 0,
        AuthAnswer::Authoritative => 1,
    }
}

pub open spec fn p_tc_value(v: Truncation) -> u8 {
    match v {
        Truncation::NotTruncated => 0,
        Truncation::Truncated => 1,
    }
}

pub open spec fn p_rd_value(v: RecursionDesired) -> u8 {
    match v {
        RecursionDesired::NoRecursion => 0,
        RecursionDesired::Recursion => 1,
    }
}

pub open spec fn p_rs_value(v: RecursionStatus) -> u8 {
    match v {
        RecursionStatus::NotAvailable => 0,
        RecursionStatus::Available => 1,
    }
}

pub open spec fn p_rcode_value(v: ResponseCode) -> u8 {
    match v {
        ResponseCode::NoError => 0,
        ResponseCode::FormatError => 1,
        ResponseCode::ServerFailure => 2,
        ResponseCode::NameError => 3,
        ResponseCode::NotImplemented => 4,
        ResponseCode::Refused => 5,
    }
}

pub open spec fn spec_qr_ind_decode(value: u8) -> Result<QrIndicator, ParseError> {
    if value == 0 {
        Ok(QrIndicator::Question)
    } else if value == 1 {
        Ok(QrIndicator::Reply)
    } else {
        Err(ParseError::ConversionError)
    }
}

/// Values 3-15 decode to the reserved variant; only values past four bits are
/// rejected.
pub open spec fn spec_p_opcode_decode(value: u8) -> Result<OpCode, ParseError> {
    if value == 0 {
        Ok(OpCode::Query)
    } else if value == 1 {
        Ok(OpCode::IQuery)
    } else if value == 2 {
        Ok(OpCode::Status)
    } else if value <= 15 {
        Ok(OpCode::FutureUse)
    } else {
        Err(ParseError::ConversionError)
    }
}

pub open spec fn spec_p_aa_decode(value: u8) -> Result<AuthAnswer, ParseError> {
    if value == 0 {
        Ok(AuthAnswer::NotAuthoritative)
    } else if value == 1 {
        Ok(AuthAnswer::Authoritative)
    } else {
        Err(ParseError::ConversionError)
    }
}

pub open spec fn spec_p_tc_decode(value: u8) -> Result<Truncation, ParseError> {
    if value == 0 {
        Ok(Truncation::NotTruncated)
    } else if value == 1 {
        Ok(Truncation::Truncated)
    } else {
        Err(ParseError::ConversionError)
    }
}

pub open spec fn spec_p_rd_decode(value: u8) -> Result<RecursionDesired, ParseError> {
    if value == 0 {
        Ok(RecursionDesired::NoRecursion)
    } else if value == 1 {
        Ok(RecursionDesired::Recursion)
    } else {
        Err(ParseError::ConversionError)
    }
}

pub open spec fn spec_p_rs_decode(value: u8) -> Result<RecursionStatus, ParseError> {
    if value == 0 {
        Ok(RecursionStatus::NotAvailable)
    } else if value == 1 {
        Ok(RecursionStatus::Available)
    } else {
        Err(ParseError::ConversionError)
    }
}

pub open spec fn spec_p_rcode_decode(value: u8) -> Result<ResponseCode, ParseError> {
    if value == 0 {
        Ok(ResponseCode::NoError)
    } else if value == 1 {
        Ok(ResponseCode::FormatError)
    } else if value == 2 {
        Ok(ResponseCode::ServerFailure)
    } else if value == 3 {
        Ok(ResponseCode::NameError)
    } else if value == 4 {
        Ok(ResponseCode::NotImplemented)
    } else if value == 5 {
        Ok(ResponseCode::Refused)
    } else {
        Err(ParseError::UnimplementedError)
    }
}

impl QrIndicator {
    pub fn try_from(value: u8) -> (r: Result<Self, ParseError>)
        ensures
            r == spec_qr_ind_decode(value),
    {
        match value {
            0 => Ok(QrIndicator::Question),
            1 => Ok(QrIndicator::Reply),
            _ => Err(ParseError::ConversionError),
        }
    }

    pub fn to_u8(&self) -> (r: u8)
        ensures
            r == qr_ind_value(*self),
    {
        match self {
            QrIndicator::Question => 0,
            QrIndicator::Reply => 1,
        }
    }
}

impl OpCode {
    pub fn try_from(value: u8) -> (r: Result<Self, ParseError>)
        ensures
            r == spec_p_opcode_decode(value),
    {
        match value {
            0 => Ok(OpCode::Query),
            1 => Ok(OpCode::IQuery),
            2 => Ok(OpCode::Status),
            _ => {
                if 3 <= value && value <= 15 {
                    Ok(OpCode::FutureUse)
                } else {
                    Err(ParseError::ConversionError)
                }
            },
        }
    }

    pub fn to_u8(&self) -> (r: u8)
        ensures
            r == p_opcode_value(*self),
    {
        match self {
            OpCode::Query => 0,
            OpCode::IQuery => 1,
            OpCode::Status => 2,
            OpCode::FutureUse => 3,
        }
    }
}

impl AuthAnswer {
    pub fn try_from(value: u8) -> (r: Result<Self, ParseError>)
        ensures
            r == spec_p_aa_decode(value),
    {
        match value {
            0 => Ok(AuthAnswer::NotAuthoritative),
            1 => Ok(AuthAnswer::Authoritative),
            _ => Err(ParseError::ConversionError),
        }
    }

    pub fn to_u8(&self) -> (r: u8)
        ensures
            r == p_aa_value(*self),
    {
        match self {
            AuthAnswer::NotAuthoritative => 0,
            AuthAnswer::Authoritative => 1,
        }
    }
}

impl Truncation {
    pub fn try_from(value: u8) -> (r: Result<Self, ParseError>)
        ensures
            r == spec_p_tc_decode(value),
    {
        match value {
            0 => Ok(Truncation::NotTruncated),
            1 => Ok(Truncation::Truncated),
            _ => Err(ParseError::ConversionError),
        }
    }

    pub fn to_u8(&self) -> (r: u8)
        ensures
            r == p_tc_value(*self),
    {
        match self {
            Truncation::NotTruncated => 0,
            Truncation::Truncated => 1,
        }
    }
}

impl RecursionDesired {
    pub fn try_from(value: u8) -> (r: Result<Self, ParseError>)
        ensures
            r == spec_p_rd_decode(value),
    {
        match value {
            0 => Ok(RecursionDesired::NoRecursion),
            1 => Ok(RecursionDesired::Recursion),
            _ => Err(ParseError::ConversionError),
        }
    }

    pub fn to_u8(&self) -> (r: u8)
        ensures
            r == p_rd_value(*self),
    {
        match self {
            RecursionDesired::NoRecursion => 0,
            RecursionDesired::Recursion => 1,
        }
    }
}

impl RecursionStatus {
    pub fn try_from(value: u8) -> (r: Result<Self, ParseError>)
        ensures
            r == spec_p_rs_decode(value),
    {
        match value {
            0 => Ok(RecursionStatus::NotAvailable),
            1 => Ok(RecursionStatus::Available),
            _ => Err(ParseError::ConversionError),
        }
    }

    pub fn to_u8(&self) -> (r: u8)
        ensures
            r == p_rs_value(*self),
    {
        match self {
            RecursionStatus::NotAvailable => 0,
            RecursionStatus::Available => 1,
        }
    }
}

impl ResponseCode {
    pub fn try_from(value: u8) -> (r: Result<Self, ParseError>)
        ensures
            r == spec_p_rcode_decode(value),
    {
        match value {
            0 => Ok(ResponseCode::NoError),
            1 => Ok(ResponseCode::FormatError),
            2 => Ok(ResponseCode::ServerFailure),
            3 => Ok(ResponseCode::NameError),
            4 => Ok(ResponseCode::NotImplemented),
            5 => Ok(ResponseCode::Refused),
            _ => Err(ParseError::UnimplementedError),
        }
    }

    pub fn to_u8(&self) -> (r: u8)
        ensures
            r == p_rcode_value(*self),
    {
        match self {
            ResponseCode::NoError => 0,
            ResponseCode::FormatError => 1,
            ResponseCode::ServerFailure => 2,
            ResponseCode::NameError => 3,
            ResponseCode::NotImplemented => 4,
            ResponseCode::Refused => 5,
        }
    }
}

} // verus!
