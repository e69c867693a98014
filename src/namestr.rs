//! Parsing of the fixed-size variable descriptor ("namestr") records.
use crate::header::DESCRIPTORS_POS;
use crate::ibm::be_value;
use crate::model::{Marker, ParseError, VarKind, Variable, VariableModel};
use crate::reader::{read_u16_be, trim_end, trimmed_field};
use vstd::prelude::*;

verus! {

/// Size of one variable descriptor record.
pub const NAMESTR_LEN: usize = 140;

/// Start of descriptor `i`.
pub open spec fn descriptor_pos(i: nat) -> nat {
    DESCRIPTORS_POS as nat + NAMESTR_LEN as nat * i
}

/// Sum of the byte lengths of `vars`: the width of an observation.
pub open spec fn total_width(vars: Seq<VariableModel>) -> nat
    decreases vars.len(),
{
    if vars.len() == 0 {
        0
    } else {
        total_width(vars.drop_last()) + vars.last().length
    }
}

/// Descriptor `i`, read as a variable placed at `offset`.
pub open spec fn descriptor_spec(d: Seq<u8>, i: nat, offset: nat) -> Result<
    VariableModel,
    ParseError,
> {
    let b = descriptor_pos(i) as int;
    let code = be_value(d.subrange(b, b + 2));
    let len = be_value(d.subrange(b + 4, b + 6));
    let name = trim_end(d.subrange(b + 8, b + 16));
    if code != 1 && code != 2 {
        Err(ParseError::UnsupportedType)
    } else if len < 1 || (code == 1 && len > 8) || (code == 2 && len > 200) || name.len() == 0 {
        Err(ParseError::MalformedHeader(Marker::VariableDescriptor))
    } else {
        Ok(
            VariableModel {
                name,
                kind: if code == 1 {
                    VarKind::Numeric
                } else {
                    VarKind::Character
                },
                length: len,
                offset,
            },
        )
    }
}

/// The first `k` descriptors, each placed right after the ones before it,
/// or the failure of the first bad one.
pub open spec fn descriptors_spec(d: Seq<u8>, k: nat) -> Result<Seq<VariableModel>, ParseError>
    decreases k,
{
    if k == 0 {
        Ok(Seq::empty())
    } else {
        match descriptors_spec(d, (k - 1) as nat) {
            Err(e) => Err(e),
            Ok(vars) => match descriptor_spec(d, (k - 1) as nat, total_width(vars)) {
                Err(e) => Err(e),
                Ok(v) => Ok(vars.push(v)),
            },
        }
    }
}

/// Each variable has a length its type admits and lies inside one observation.
pub open spec fn layout_ok(vars: Seq<VariableModel>) -> bool {
    forall|j: int|
        0 <= j < vars.len() ==> {
            &&& 1 <= #[trigger] vars[j].length
            &&& vars[j].kind == VarKind::Numeric ==> vars[j].length <= 8
            &&& vars[j].length <= 200
            &&& vars[j].offset + vars[j].length <= total_width(vars)
        }
}

proof fn lemma_failure_persists(d: Seq<u8>, k: nat, k2: nat)
    requires
        k <= k2,
        descriptors_spec(d, k) is Err,
    ensures
        descriptors_spec(d, k2) == descriptors_spec(d, k),
    decreases k2,
{
    if k2 > k {
        lemma_failure_persists(d, k, (k2 - 1) as nat);
    }
}

/// Reads `count` descriptors and lays the variables out in declaration order.
pub fn parse_descriptors(data: &[u8], count: usize) -> (r: Result<Vec<Variable>, ParseError>)
    requires
        count < 10000,
        descriptor_pos(count as nat) <= data@.len(),
    ensures
        match descriptors_spec(data@, count as nat) {
            Ok(vars) => r is Ok && r->Ok_0@.map_values(|v: Variable| v@) == vars,
            Err(e) => r is Err && r->Err_0 == e,
        },
        r is Ok ==> r->Ok_0@.len() == count,
        r is Ok ==> layout_ok(r->Ok_0@.map_values(|v: Variable| v@)),
        r is Ok ==> total_width(r->Ok_0@.map_values(|v: Variable| v@)) <= 200 * count,
{
    let mut vars: Vec<Variable> = Vec::new();
    let mut width: usize = 0;
    let mut i: usize = 0;
    assert(vars@.map_values(|v: Variable| v@) =~= Seq::<VariableModel>::empty());
    while i < count
        invariant
            i <= count < 10000,
            descriptor_pos(count as nat) <= data@.len(),
            descriptors_spec(data@, i as nat) == Ok::<Seq<VariableModel>, ParseError>(
                vars@.map_values(|v: Variable| v@),
            ),
            width as nat == total_width(vars@.map_values(|v: Variable| v@)),
            width <= 200 * i,
            vars@.len() == i,
            layout_ok(vars@.map_values(|v: Variable| v@)),
        decreases count - i,
    {
        let b = DESCRIPTORS_POS + NAMESTR_LEN * i;
        let code = read_u16_be(data, b);
        let len = read_u16_be(data, b + 4);
        let name = trimmed_field(data, b + 8, b + 16);
        if code != 1 && code != 2 {
            proof {
                lemma_failure_persists(data@, (i + 1) as nat, count as nat);
            }
            return Err(ParseError::UnsupportedType);
        }
        if len < 1 || (code == 1 && len > 8) || (code == 2 && len > 200) || name.len() == 0 {
            proof {
                lemma_failure_persists(data@, (i + 1) as nat, count as nat);
            }
            return Err(ParseError::MalformedHeader(Marker::VariableDescriptor));
        }
        let kind = if code == 1 {
            VarKind::Numeric
        } else {
            VarKind::Character
        };
        let ghost before = vars@.map_values(|v: Variable| v@);
        vars.push(Variable { name, kind, length: len, offset: width });
        let ghost after = vars@.map_values(|v: Variable| v@);
        assert(after =~= before.push(after.last()));
        assert(after.drop_last() =~= before);
        width = width + len;
        i = i + 1;
        assert(layout_ok(after)) by {
            assert forall|j: int| 0 <= j < after.len() implies {
                &&& 1 <= #[trigger] after[j].length
                &&& after[j].kind == VarKind::Numeric ==> after[j].length <= 8
                &&& after[j].length <= 200
                &&& after[j].offset + after[j].length <= total_width(after)
            } by {
                if j < before.len() {
                    assert(after[j] == before[j]);
                }
            }
        }
    }
    Ok(vars)
}

} // verus!
