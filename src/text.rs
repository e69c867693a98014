//! Rendering of a table of text cells as comma-separated lines.
use vstd::prelude::*;

verus! {

pub open spec fn needs_quotes(v: Seq<u8>) -> bool {
    exists|i: int| 0 <= i < v.len() && (v[i] == 44 || v[i] == 34 || v[i] == 10)
}

/// `v` with every double quote doubled.
pub open spec fn double_quotes(v: Seq<u8>) -> Seq<u8>
    decreases v.len(),
{
    if v.len() == 0 {
        Seq::empty()
    } else if v.last() == 34 {
        double_quotes(v.drop_last()) + seq![34u8, 34u8]
    } else {
        double_quotes(v.drop_last()) + seq![v.last()]
    }
}

/// A field as written: quoted, with inner quotes doubled, when it holds a
/// comma, a double quote or a newline; unchanged otherwise.
pub open spec fn field_spec(v: Seq<u8>) -> Seq<u8> {
    if needs_quotes(v) {
        seq![34u8] + double_quotes(v) + seq![34u8]
    } else {
        v
    }
}

/// Fields joined by commas.
pub open spec fn join_spec(fields: Seq<Seq<u8>>) -> Seq<u8>
    decreases fields.len(),
{
    if fields.len() == 0 {
        Seq::empty()
    } else if fields.len() == 1 {
        fields[0]
    } else {
        join_spec(fields.drop_last()) + seq![44u8] + fields.last()
    }
}

/// One data line: the cells written as fields, joined, ended by a newline.
pub open spec fn data_line(cells: Seq<Seq<u8>>) -> Seq<u8> {
    join_spec(cells.map_values(|c: Seq<u8>| field_spec(c))) + seq![10u8]
}

/// The lines of the rows that have exactly `n` cells, in order.
pub open spec fn body_spec(rows: Seq<Seq<Seq<u8>>>, n: nat) -> Seq<u8>
    decreases rows.len(),
{
    if rows.len() == 0 {
        Seq::empty()
    } else if rows.last().len() == n {
        body_spec(rows.drop_last(), n) + data_line(rows.last())
    } else {
        body_spec(rows.drop_last(), n)
    }
}

/// How many rows do not have exactly `n` cells.
pub open spec fn skipped_spec(rows: Seq<Seq<Seq<u8>>>, n: nat) -> nat
    decreases rows.len(),
{
    if rows.len() == 0 {
        0
    } else if rows.last().len() == n {
        skipped_spec(rows.drop_last(), n)
    } else {
        skipped_spec(rows.drop_last(), n) + 1
    }
}

/// The count of left-out rows is the number of rows whose cell count
/// differs from the number of names.
pub proof fn lemma_skipped_counts_mismatched(rows: Seq<Seq<Seq<u8>>>, n: nat)
    ensures
        skipped_spec(rows, n) == rows.filter(|r: Seq<Seq<u8>>| r.len() != n).len(),
    decreases rows.len(),
{
    reveal(Seq::filter);
    if rows.len() > 0 {
        lemma_skipped_counts_mismatched(rows.drop_last(), n);
    }
}

/// The whole text: the names joined by commas as a header line, then a line per well-sized row.
pub open spec fn render_spec(names: Seq<Seq<u8>>, rows: Seq<Seq<Seq<u8>>>) -> Seq<u8> {
    join_spec(names) + seq![10u8] + body_spec(rows, names.len())
}

pub open spec fn rows_view(rows: Seq<Vec<Vec<u8>>>) -> Seq<Seq<Seq<u8>>> {
    rows.map_values(|r: Vec<Vec<u8>>| r@.map_values(|c: Vec<u8>| c@))
}

/// Reads a quoted field's inside back: each pair of double quotes stands for one.
pub open spec fn undouble_quotes(s: Seq<u8>) -> Seq<u8>
    decreases s.len(),
{
    if s.len() == 0 {
        Seq::empty()
    } else if s.len() >= 2 && s.last() == 34 && s[s.len() - 2] == 34 {
        undouble_quotes(s.subrange(0, s.len() - 2)) + seq![34u8]
    } else {
        undouble_quotes(s.drop_last()) + seq![s.last()]
    }
}

/// Reads a field back: a field opening and closing with a double quote loses
/// them and has its doubled quotes undone; any other field stands as it is.
pub open spec fn unquote_field(s: Seq<u8>) -> Seq<u8> {
    if s.len() >= 2 && s[0] == 34 && s.last() == 34 {
        undouble_quotes(s.subrange(1, s.len() - 1))
    } else {
        s
    }
}

proof fn lemma_undouble_inverts(v: Seq<u8>)
    ensures
        undouble_quotes(double_quotes(v)) == v,
    decreases v.len(),
{
    if v.len() > 0 {
        lemma_undouble_inverts(v.drop_last());
        let e = double_quotes(v);
        let p = double_quotes(v.drop_last());
        if v.last() == 34 {
            assert(e.subrange(0, e.len() - 2) =~= p);
        } else {
            assert(e.drop_last() =~= p);
        }
        assert(v =~= v.drop_last() + seq![v.last()]);
    }
}

/// A written field reads back as the value it was written from.
pub proof fn lemma_field_round_trip(v: Seq<u8>)
    ensures
        unquote_field(field_spec(v)) == v,
{
    if needs_quotes(v) {
        let f = field_spec(v);
        assert(f.subrange(1, f.len() - 1) =~= double_quotes(v));
        lemma_undouble_inverts(v);
    } else if v.len() >= 2 && v[0] == 34 {
        assert(needs_quotes(v));
    }
}

/// Appends `v` as a field to `out`.
pub fn write_field(out: &mut Vec<u8>, v: &Vec<u8>)
    ensures
        final(out)@ == old(out)@ + field_spec(v@),
{
    let mut quote = false;
    let mut i: usize = 0;
    while i < v.len()
        invariant
            i <= v@.len(),
            quote == exists|k: int| 0 <= k < i && (v@[k] == 44 || v@[k] == 34 || v@[k] == 10),
        decreases v@.len() - i,
    {
        if v[i] == 44 || v[i] == 34 || v[i] == 10 {
            quote = true;
        }
        i = i + 1;
    }
    if !quote {
        out.extend_from_slice(v.as_slice());
        return;
    }
    let ghost start = out@;
    out.push(34);
    let mut i: usize = 0;
    while i < v.len()
        invariant
            i <= v@.len(),
            out@ == start + seq![34u8] + double_quotes(v@.subrange(0, i as int)),
        decreases v@.len() - i,
    {
        assert(v@.subrange(0, i + 1).drop_last() =~= v@.subrange(0, i as int));
        if v[i] == 34 {
            out.push(34);
            out.push(34);
        } else {
            out.push(v[i]);
        }
        i = i + 1;
        assert(out@ =~= start + seq![34u8] + double_quotes(v@.subrange(0, i as int)));
    }
    out.push(34);
    assert(v@.subrange(0, i as int) =~= v@);
    assert(out@ =~= start + field_spec(v@));
}

/// Appends the fields joined by commas, each written as a field when `quoted`
/// and as it stands otherwise, then a newline.
fn write_line(out: &mut Vec<u8>, fields: &Vec<Vec<u8>>, quoted: bool)
    ensures
        quoted ==> final(out)@ == old(out)@ + data_line(fields@.map_values(|c: Vec<u8>| c@)),
        !quoted ==> final(out)@ == old(out)@ + join_spec(fields@.map_values(|c: Vec<u8>| c@))
            + seq![10u8],
{
    let ghost start = out@;
    let ghost cells = fields@.map_values(|c: Vec<u8>| c@);
    let ghost written = if quoted {
        cells.map_values(|c: Seq<u8>| field_spec(c))
    } else {
        cells
    };
    let mut i: usize = 0;
    while i < fields.len()
        invariant
            i <= fields@.len(),
            cells == fields@.map_values(|c: Vec<u8>| c@),
            written == if quoted {
                cells.map_values(|c: Seq<u8>| field_spec(c))
            } else {
                cells
            },
            out@ == start + join_spec(written.subrange(0, i as int)),
        decreases fields@.len() - i,
    {
        let ghost before = out@;
        if i > 0 {
            out.push(44);
        }
        if quoted {
            write_field(out, &fields[i]);
        } else {
            out.extend_from_slice(fields[i].as_slice());
        }
        assert(written.subrange(0, i + 1).drop_last() =~= written.subrange(0, i as int));
        assert(written[i as int] == if quoted {
            field_spec(fields@[i as int]@)
        } else {
            fields@[i as int]@
        });
        i = i + 1;
        assert(out@ =~= start + join_spec(written.subrange(0, i as int)));
    }
    assert(written.subrange(0, i as int) =~= written);
    out.push(10);
}

/// Renders a header line of `names` and a line per row. A row whose cell count
/// differs from the number of names is left out and counted.
pub fn render_text(names: &Vec<Vec<u8>>, rows: &Vec<Vec<Vec<u8>>>) -> (r: (Vec<u8>, usize))
    ensures
        r.0@ == render_spec(names@.map_values(|c: Vec<u8>| c@), rows_view(rows@)),
        r.1 == skipped_spec(rows_view(rows@), names@.len()),
{
    let mut out: Vec<u8> = Vec::new();
    write_line(&mut out, names, false);
    let ghost head = out@;
    let ghost rv = rows_view(rows@);
    let mut skipped: usize = 0;
    let mut k: usize = 0;
    while k < rows.len()
        invariant
            k <= rows@.len(),
            rv == rows_view(rows@),
            out@ == head + body_spec(rv.subrange(0, k as int), names@.len()),
            skipped == skipped_spec(rv.subrange(0, k as int), names@.len()),
            skipped <= k,
        decreases rows@.len() - k,
    {
        assert(rv.subrange(0, k + 1).drop_last() =~= rv.subrange(0, k as int));
        assert(rv[k as int] == rows@[k as int]@.map_values(|c: Vec<u8>| c@));
        if rows[k].len() == names.len() {
            write_line(&mut out, &rows[k], true);
        } else {
            skipped = skipped + 1;
        }
        k = k + 1;
        assert(out@ =~= head + body_spec(rv.subrange(0, k as int), names@.len()));
    }
    assert(rv.subrange(0, k as int) =~= rv);
    (out, skipped)
}

} // verus!
