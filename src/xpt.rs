//! The whole decode: header records, variable descriptors, observations.
use crate::header::{count_field, header_spec, parse_header, DESCRIPTORS_POS};
use crate::markers::{observation_marker, observation_marker_bytes, library_marker, member_marker, descriptor_marker, namestr_marker, sas_tag};
use crate::model::{Dataset, DatasetModel, Marker, ParseError, Variable, VariableModel};
use crate::namestr::{descriptor_pos, descriptors_spec, layout_ok, parse_descriptors, total_width, NAMESTR_LEN};
use crate::reader::{all_digits, decimal_value, has_at, RecordReader, RECORD_LEN};
use crate::rows::{decode_rows, rows_spec};
use vstd::prelude::*;

verus! {

/// The observation header record starts at the first record boundary after the descriptors.
pub open spec fn observation_header_pos(count: nat) -> nat {
    ((descriptor_pos(count) + 79) / 80) * 80
}

/// Outcome of decoding a whole buffer.
pub open spec fn parse_spec(d: Seq<u8>) -> Result<DatasetModel, ParseError> {
    match header_spec(d) {
        Err(e) => Err(e),
        Ok((title, n)) => if d.len() < descriptor_pos(n) {
            Err(ParseError::Truncated)
        } else {
            match descriptors_spec(d, n) {
                Err(e) => Err(e),
                Ok(vars) => {
                    let h = observation_header_pos(n);
                    if d.len() < h + 80 {
                        Err(ParseError::Truncated)
                    } else if !has_at(d, h as int, observation_marker()) {
                        Err(ParseError::MalformedHeader(Marker::Observation))
                    } else {
                        let rows = rows_spec(d, h + 80, vars);
                        if rows.len() == 0 {
                            Err(ParseError::NoRows)
                        } else {
                            Ok(DatasetModel { title, variables: vars, rows })
                        }
                    }
                },
            }
        },
    }
}

/// Decodes a complete transport file held in memory.
pub fn parse_xpt(data: &[u8]) -> (r: Result<Dataset, ParseError>)
    ensures
        match parse_spec(data@) {
            Ok(m) => r is Ok && r->Ok_0@ == m,
            Err(e) => r is Err && r->Err_0 == e,
        },
        r is Ok ==> r->Ok_0@.variables.len() > 0 && r->Ok_0@.rows.len() > 0,
{
    let header = match parse_header(data) {
        Ok(h) => h,
        Err(e) => {
            return Err(e);
        },
    };
    let count = header.count;
    let desc_end = DESCRIPTORS_POS + NAMESTR_LEN * count;
    if data.len() < desc_end {
        return Err(ParseError::Truncated);
    }
    let variables = match parse_descriptors(data, count) {
        Ok(v) => v,
        Err(e) => {
            return Err(e);
        },
    };
    let ghost vm = variables@.map_values(|v: Variable| v@);
    let obs_header = ((desc_end + 79) / RECORD_LEN) * RECORD_LEN;
    if data.len() < obs_header || data.len() - obs_header < RECORD_LEN {
        return Err(ParseError::Truncated);
    }
    let obs_marker = observation_marker_bytes();
    let reader = RecordReader { data, pos: obs_header };
    if !reader.peek_matches(obs_marker.as_slice()) {
        return Err(ParseError::MalformedHeader(Marker::Observation));
    }
    let mut width: usize = 0;
    let mut j: usize = 0;
    while j < variables.len()
        invariant
            j <= variables@.len(),
            vm == variables@.map_values(|v: Variable| v@),
            layout_ok(vm),
            total_width(vm) <= 200 * count,
            count < 10000,
            width as nat == total_width(vm.subrange(0, j as int)),
        decreases variables@.len() - j,
    {
        assert(vm.subrange(0, j + 1).drop_last() =~= vm.subrange(0, j as int));
        proof {
            lemma_width_prefix_bounded(vm, j as int + 1);
        }
        width = width + variables[j].length;
        j = j + 1;
    }
    assert(vm.subrange(0, j as int) =~= vm);
    proof {
        assert(1 <= vm[vm.len() - 1].length);
    }
    let rows = decode_rows(data, obs_header + RECORD_LEN, &variables, width);
    if rows.len() == 0 {
        return Err(ParseError::NoRows);
    }
    Ok(Dataset { title: header.title, variables, rows })
}

/// A zero-length buffer is always rejected as empty input.
pub proof fn lemma_empty_input_rejected(d: Seq<u8>)
    requires
        d.len() == 0,
    ensures
        parse_spec(d) == Err::<DatasetModel, ParseError>(ParseError::EmptyInput),
{
}

/// A non-empty buffer that does not open with the library header marker is
/// rejected as a malformed library header.
pub proof fn lemma_foreign_header_rejected(d: Seq<u8>)
    requires
        d.len() > 0,
        !has_at(d, 0, library_marker()),
    ensures
        parse_spec(d) == Err::<DatasetModel, ParseError>(
            ParseError::MalformedHeader(Marker::Library),
        ),
{
}

/// Whether all header records are present and well formed, up to a
/// numeric variable count.
pub open spec fn headers_well_formed(d: Seq<u8>) -> bool {
    &&& d.len() >= 640
    &&& has_at(d, 0, library_marker())
    &&& has_at(d, 80, sas_tag())
    &&& has_at(d, 240, member_marker())
    &&& has_at(d, 320, descriptor_marker())
    &&& has_at(d, 400, sas_tag())
    &&& has_at(d, 560, namestr_marker())
    &&& all_digits(count_field(d))
}

/// Well-formed headers that declare no variables are rejected with `NoVariables`.
pub proof fn lemma_no_variables_rejected(d: Seq<u8>)
    requires
        headers_well_formed(d),
        decimal_value(count_field(d)) == 0,
    ensures
        parse_spec(d) == Err::<DatasetModel, ParseError>(ParseError::NoVariables),
{
}

proof fn lemma_width_prefix_bounded(vars: Seq<VariableModel>, k: int)
    requires
        0 <= k <= vars.len(),
    ensures
        total_width(vars.subrange(0, k)) <= total_width(vars),
    decreases vars.len(),
{
    if k < vars.len() {
        assert(vars.drop_last().subrange(0, k) =~= vars.subrange(0, k));
        lemma_width_prefix_bounded(vars.drop_last(), k);
    } else {
        assert(vars.subrange(0, k) =~= vars);
    }
}

} // verus!
