//! Decoding of the fixed-width observation records.
use crate::ibm::{decode_ibm, decode_spec};
use crate::model::{Row, Value, ValueModel, VarKind, Variable, VariableModel};
use crate::namestr::{layout_ok, total_width};
use crate::reader::{trim_end, trimmed_field, RecordReader};
use vstd::prelude::*;

verus! {

/// Whether a numeric cell holds a missing-value sentinel: `.`, `_` or a
/// letter `A`..`Z` in the first byte and zeros in the rest.
pub open spec fn is_missing(b: Seq<u8>) -> bool {
    &&& b.len() > 0
    &&& (b[0] == 46 || b[0] == 95 || (65 <= b[0] && b[0] <= 90))
    &&& forall|i: int| 1 <= i < b.len() ==> #[trigger] b[i] == 0
}

/// A numeric cell shorter than 8 bytes holds the leading bytes of the full value.
pub open spec fn pad8(b: Seq<u8>) -> Seq<u8> {
    b + Seq::new((8 - b.len()) as nat, |i: int| 0u8)
}

/// What one cell decodes to.
pub open spec fn cell_spec(b: Seq<u8>, kind: VarKind) -> ValueModel {
    match kind {
        VarKind::Numeric => if is_missing(b) {
            ValueModel::Missing
        } else {
            ValueModel::Number(decode_spec(pad8(b)) as u64)
        },
        VarKind::Character => ValueModel::Text(trim_end(b)),
    }
}

/// The bytes of variable `v` within an observation.
pub open spec fn slot(obs: Seq<u8>, v: VariableModel) -> Seq<u8> {
    obs.subrange(v.offset as int, (v.offset + v.length) as int)
}

/// What one observation decodes to.
pub open spec fn row_spec(obs: Seq<u8>, vars: Seq<VariableModel>) -> Seq<ValueModel> {
    Seq::new(vars.len(), |j: int| cell_spec(slot(obs, vars[j]), vars[j].kind))
}

/// Every whole observation from `start` to the end of `d`; a shorter tail is padding.
pub open spec fn rows_spec(d: Seq<u8>, start: nat, vars: Seq<VariableModel>) -> Seq<
    Seq<ValueModel>,
> {
    let w = total_width(vars);
    Seq::new(
        ((d.len() - start) / w as int) as nat,
        |k: int| row_spec(d.subrange(start + k * w, start + (k + 1) * w), vars),
    )
}

/// Observation data holding `n` whole observations, and less than one more,
/// decodes to exactly `n` rows, row `k` from the `k`-th observation.
pub proof fn lemma_row_count(d: Seq<u8>, start: nat, vars: Seq<VariableModel>, n: nat)
    requires
        total_width(vars) > 0,
        start + n * total_width(vars) <= d.len() < start + (n + 1) * total_width(vars),
    ensures
        rows_spec(d, start, vars).len() == n,
        forall|k: int|
            0 <= k < n ==> #[trigger] rows_spec(d, start, vars)[k] == row_spec(
                d.subrange(start + k * total_width(vars), start + (k + 1) * total_width(vars)),
                vars,
            ),
{
    let w = total_width(vars);
    assert((n + 1) * w == n * w + w) by (nonlinear_arith);
    vstd::arithmetic::div_mod::lemma_fundamental_div_mod_converse(
        d.len() - start,
        w as int,
        n as int,
        d.len() - start - n * w,
    );
}

/// Decodes the cell of `v` in observation `obs`.
pub fn decode_cell(obs: &[u8], v: &Variable) -> (r: Value)
    requires
        1 <= v.length,
        v.kind == VarKind::Numeric ==> v.length <= 8,
        v.offset + v.length <= obs@.len(),
    ensures
        r@ == cell_spec(slot(obs@, v@), v.kind),
{
    let ghost b = slot(obs@, v@);
    let olen = obs.len();
    match v.kind {
        VarKind::Character => Value::Text(trimmed_field(obs, v.offset, v.offset + v.length)),
        VarKind::Numeric => {
            let first = obs[v.offset];
            let mut missing = first == 46 || first == 95 || (65 <= first && first <= 90);
            let mut buf: Vec<u8> = Vec::new();
            let mut i: usize = 0;
            assert(b[0] == first);
            while i < 8
                invariant
                    i <= 8,
                    olen == obs@.len(),
                    1 <= v.length <= 8,
                    v.offset + v.length <= obs@.len(),
                    b == obs@.subrange(v.offset as int, v.offset + v.length),
                    buf@ =~= pad8(b).subrange(0, i as int),
                    missing == ((b[0] == 46 || b[0] == 95 || (65 <= b[0] && b[0] <= 90)) && forall|
                        k: int,
                    |
                        1 <= k < i && k < b.len() ==> #[trigger] b[k] == 0),
                decreases 8 - i,
            {
                let c = if i < v.length {
                    obs[v.offset + i]
                } else {
                    0
                };
                proof {
                    if i < v.length {
                        assert(b[i as int] == c);
                    }
                }
                if i >= 1 && i < v.length && c != 0 {
                    missing = false;
                }
                buf.push(c);
                i = i + 1;
            }
            if missing {
                assert(is_missing(b));
                Value::Missing
            } else {
                assert(buf@ =~= pad8(b));
                Value::Number(decode_ibm(buf.as_slice()))
            }
        },
    }
}

/// Decodes one observation into a value per variable.
pub fn decode_row(obs: &[u8], vars: &Vec<Variable>) -> (r: Row)
    requires
        layout_ok(vars@.map_values(|v: Variable| v@)),
        total_width(vars@.map_values(|v: Variable| v@)) <= obs@.len(),
    ensures
        r@ == row_spec(obs@, vars@.map_values(|v: Variable| v@)),
{
    let ghost vm = vars@.map_values(|v: Variable| v@);
    let mut values: Vec<Value> = Vec::new();
    let mut j: usize = 0;
    while j < vars.len()
        invariant
            j <= vars@.len(),
            vm == vars@.map_values(|v: Variable| v@),
            layout_ok(vm),
            total_width(vm) <= obs@.len(),
            values@.map_values(|v: Value| v@) =~= row_spec(obs@, vm).subrange(0, j as int),
        decreases vars@.len() - j,
    {
        assert(vm[j as int] == vars@[j as int]@);
        assert(1 <= vm[j as int].length);
        assert(vm[j as int].offset + vm[j as int].length <= total_width(vm));
        let cell = decode_cell(obs, &vars[j]);
        let ghost before = values@.map_values(|v: Value| v@);
        values.push(cell);
        assert(values@.map_values(|v: Value| v@) =~= before.push(cell@));
        j = j + 1;
    }
    assert(row_spec(obs@, vm).subrange(0, j as int) =~= row_spec(obs@, vm));
    Row { values }
}

/// Slices whole observations of `width` bytes from `start` to the end of `data`
/// and decodes each; a tail shorter than one observation ends the data.
pub fn decode_rows(data: &[u8], start: usize, vars: &Vec<Variable>, width: usize) -> (r: Vec<Row>)
    requires
        start <= data@.len(),
        layout_ok(vars@.map_values(|v: Variable| v@)),
        width as nat == total_width(vars@.map_values(|v: Variable| v@)),
        width > 0,
    ensures
        r@.map_values(|row: Row| row@) == rows_spec(data@, start as nat, vars@.map_values(|v: Variable| v@)),
{
    let ghost vm = vars@.map_values(|v: Variable| v@);
    let mut reader = RecordReader { data, pos: start };
    let mut rows: Vec<Row> = Vec::new();
    loop
        invariant
            reader.data@ == data@,
            start <= reader.pos <= data@.len(),
            vm == vars@.map_values(|v: Variable| v@),
            layout_ok(vm),
            width as nat == total_width(vm),
            width > 0,
            reader.pos == start + rows@.len() * width,
            forall|k: int| 0 <= k < rows@.len() ==> #[trigger] rows@[k]@ == row_spec(
                data@.subrange(start + k * width, start + (k + 1) * width),
                vm,
            ),
        ensures
            start <= reader.pos <= data@.len(),
            reader.pos == start + rows@.len() * width,
            reader.pos + width > data@.len(),
            forall|k: int| 0 <= k < rows@.len() ==> #[trigger] rows@[k]@ == row_spec(
                data@.subrange(start + k * width, start + (k + 1) * width),
                vm,
            ),
        decreases data@.len() - reader.pos,
    {
        let ghost pos = reader.pos;
        match reader.next(width) {
            Ok(obs) => {
                let row = decode_row(obs, vars);
                let ghost k = rows@.len() as int;
                assert(start + (k + 1) * width == pos + width) by (nonlinear_arith)
                    requires pos == start + k * width;
                rows.push(row);
            },
            Err(_) => {
                break;
            },
        }
    }
    let ghost k = rows@.len() as int;
    let ghost rem = data@.len() - reader.pos;
    proof {
        vstd::arithmetic::div_mod::lemma_fundamental_div_mod_converse(
            data@.len() - start,
            width as int,
            k,
            rem,
        );
    }
    assert(rows@.map_values(|row: Row| row@) =~= rows_spec(data@, start as nat, vm));
    rows
}

} // verus!
