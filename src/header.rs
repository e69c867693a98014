//! Validation of the library and member header records.
use crate::markers::{
    descriptor_marker, descriptor_marker_bytes, library_marker, library_marker_bytes, member_marker,
    member_marker_bytes, namestr_marker, namestr_marker_bytes, sas_tag, sas_tag_bytes,
};
use crate::model::{Marker, ParseError};
use crate::reader::{all_digits, bytes_at, decimal_value, has_at, read_decimal4, trim_end, trimmed_field};
use vstd::prelude::*;

verus! {

/// Start of the namestr header record; the descriptors follow it.
pub const NAMESTR_HEADER_POS: usize = 560;

/// Start of the first variable descriptor.
pub const DESCRIPTORS_POS: usize = 640;

/// What the headers give: the dataset title and the number of variables.
pub struct Header {
    pub title: Vec<u8>,
    pub count: usize,
}

/// The dataset label of the second member record, or the dataset name when the label is blank.
pub open spec fn title_spec(d: Seq<u8>) -> Seq<u8> {
    let label = trim_end(d.subrange(512, 552));
    if label.len() > 0 {
        label
    } else {
        trim_end(d.subrange(408, 416))
    }
}

/// The four-digit variable count of the namestr header record.
pub open spec fn count_field(d: Seq<u8>) -> Seq<u8> {
    d.subrange(614, 618)
}

/// Outcome of reading the header records: title and variable count, or the first failure.
pub open spec fn header_spec(d: Seq<u8>) -> Result<(Seq<u8>, nat), ParseError> {
    if d.len() == 0 {
        Err(ParseError::EmptyInput)
    } else if !has_at(d, 0, library_marker()) {
        Err(ParseError::MalformedHeader(Marker::Library))
    } else if d.len() < 160 {
        Err(ParseError::Truncated)
    } else if !has_at(d, 80, sas_tag()) {
        Err(ParseError::MalformedHeader(Marker::FirstHeader))
    } else if d.len() < 320 {
        Err(ParseError::Truncated)
    } else if !has_at(d, 240, member_marker()) {
        Err(ParseError::MalformedHeader(Marker::Member))
    } else if d.len() < 400 {
        Err(ParseError::Truncated)
    } else if !has_at(d, 320, descriptor_marker()) {
        Err(ParseError::MalformedHeader(Marker::Descriptor))
    } else if d.len() < 560 {
        Err(ParseError::Truncated)
    } else if !has_at(d, 400, sas_tag()) {
        Err(ParseError::MalformedHeader(Marker::MemberData))
    } else if d.len() < 640 {
        Err(ParseError::Truncated)
    } else if !has_at(d, 560, namestr_marker()) || !all_digits(count_field(d)) {
        Err(ParseError::MalformedHeader(Marker::Namestr))
    } else if decimal_value(count_field(d)) == 0 {
        Err(ParseError::NoVariables)
    } else {
        Ok((title_spec(d), decimal_value(count_field(d))))
    }
}

/// Checks the header records in order and extracts the title and the variable count.
pub fn parse_header(data: &[u8]) -> (r: Result<Header, ParseError>)
    ensures
        match header_spec(data@) {
            Ok((t, n)) => r is Ok && r->Ok_0.title@ == t && r->Ok_0.count == n,
            Err(e) => r is Err && r->Err_0 == e,
        },
        r is Ok ==> 0 < r->Ok_0.count < 10000,
{
    if data.len() == 0 {
        return Err(ParseError::EmptyInput);
    }
    let lib = library_marker_bytes();
    if !bytes_at(data, 0, lib.as_slice()) {
        return Err(ParseError::MalformedHeader(Marker::Library));
    }
    if data.len() < 160 {
        return Err(ParseError::Truncated);
    }
    let sas = sas_tag_bytes();
    if !bytes_at(data, 80, sas.as_slice()) {
        return Err(ParseError::MalformedHeader(Marker::FirstHeader));
    }
    if data.len() < 320 {
        return Err(ParseError::Truncated);
    }
    let member = member_marker_bytes();
    if !bytes_at(data, 240, member.as_slice()) {
        return Err(ParseError::MalformedHeader(Marker::Member));
    }
    if data.len() < 400 {
        return Err(ParseError::Truncated);
    }
    let descriptor = descriptor_marker_bytes();
    if !bytes_at(data, 320, descriptor.as_slice()) {
        return Err(ParseError::MalformedHeader(Marker::Descriptor));
    }
    if data.len() < 560 {
        return Err(ParseError::Truncated);
    }
    if !bytes_at(data, 400, sas.as_slice()) {
        return Err(ParseError::MalformedHeader(Marker::MemberData));
    }
    if data.len() < 640 {
        return Err(ParseError::Truncated);
    }
    let namestr = namestr_marker_bytes();
    if !bytes_at(data, NAMESTR_HEADER_POS, namestr.as_slice()) {
        return Err(ParseError::MalformedHeader(Marker::Namestr));
    }
    let count = match read_decimal4(data, 614) {
        Some(c) => c,
        None => {
            return Err(ParseError::MalformedHeader(Marker::Namestr));
        },
    };
    if count == 0 {
        return Err(ParseError::NoVariables);
    }
    let label = trimmed_field(data, 512, 552);
    let title = if label.len() > 0 {
        label
    } else {
        trimmed_field(data, 408, 416)
    };
    Ok(Header { title, count })
}

} // verus!
