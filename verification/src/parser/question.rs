//! Question records for the slice-based parser: a bare record with no fixed
//! fields beyond type and class.
use crate::error::ParseError;
use crate::parser::section::parse_single_section;
use crate::parser::section::spec_parse_single_section;
use crate::parser::section::PSectionModel;
use crate::parser::section::Section;
use crate::parser::section::SectionBytes;
use vstd::prelude::*;

verus! {

/// One question record.
#[derive(Debug, Clone, PartialEq)]
pub struct QSection {
    pub inner: Section,
}

impl QSection {
    pub open spec fn model(self) -> PSectionModel {
        self.inner.model()
    }
}

impl SectionBytes for QSection {
    fn into_bytes(self) -> (r: Vec<u8>)
        ensures
            r@ == self.inner.raw_domain@ + crate::spec_u16_be_bytes(
                crate::parser::section::rrtype_value(self.inner.rr_type),
            ) + crate::spec_u16_be_bytes(
                crate::parser::section::rrclass_value(self.inner.rr_class),
            ),
    {
        self.inner.into_bytes()
    }

    fn section(&self) -> (r: &Section)
        ensures
            r == &self.inner,
    {
        &self.inner
    }
}

/// Parse one question record at `*pos`, advancing past it on success.
pub fn parse_single_qsection(data: &[u8], pos: &mut usize) -> (r: Result<QSection, ParseError>)
    requires
        *old(pos) <= data@.len(),
    ensures
        ({
            let res = spec_parse_single_section(data@, *old(pos) as int);
            match r {
                Ok(s) => res is Ok && s.model() == res->Ok_0.0 && *final(pos) == res->Ok_0.1
                    && *final(pos) <= data@.len(),
                Err(e) => res is Err && res->Err_0 == e,
            }
        }),
{
    let section = match parse_single_section(data, pos) {
        Ok(s) => s,
        Err(e) => {
            return Err(e);
        },
    };
    Ok(QSection { inner: section })
}

} // verus!
