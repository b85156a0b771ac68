use crate::catalog::clone_bytes;
use crate::data::{
    batch_models, batch_wf, bytes_views, col_models, col_wf, BatchModel, CellsModel, ColModel,
    Column, Field, FieldModel, RecordBatch, Schema, TypeTag,
};
use crate::error::FlightError;
use vstd::prelude::*;

verus! {

/// How a batch source's pull sequence ended: the source ran out, or it
/// failed mid-sequence. Batches produced before a failure stand and are
/// not retracted.
#[derive(Debug)]
pub enum SourceEnd {
    Exhausted,
    Failed(String),
}

/// The pulled output of one opened batch source: the batches it produced,
/// in order, and how the sequence ended. A source is finite and not
/// restartable: retrying means opening a fresh one.
#[derive(Debug)]
pub struct SourceRun {
    pub batches: Vec<RecordBatch>,
    pub end: SourceEnd,
}

/// One cell handed in by a row-oriented source.
#[derive(Debug)]
pub enum CellValue {
    Utf8(Vec<u8>),
    Float64(u64),
    Null,
}

/// Mathematical model of a cell.
#[verifier::ext_equal]
pub enum CellModel {
    Utf8(Seq<u8>),
    Float64(u64),
    Null,
}

impl CellValue {
    pub open spec fn model(self) -> CellModel {
        match self {
            CellValue::Utf8(v) => CellModel::Utf8(v@),
            CellValue::Float64(x) => CellModel::Float64(x),
            CellValue::Null => CellModel::Null,
        }
    }
}

pub open spec fn cell_models(s: Seq<CellValue>) -> Seq<CellModel> {
    s.map_values(|c: CellValue| c.model())
}

pub open spec fn row_models(s: Seq<Vec<CellValue>>) -> Seq<Seq<CellModel>> {
    s.map_values(|r: Vec<CellValue>| cell_models(r@))
}

/// One cell fits one field: a null only where the field is nullable, a
/// matching type elsewhere, and text short enough for the wire.
pub open spec fn cell_fits(f: FieldModel, c: CellModel) -> bool {
    match c {
        CellModel::Null => f.nullable,
        CellModel::Utf8(v) => f.tag == TypeTag::Utf8 && v.len() < 0x1_0000_0000,
        CellModel::Float64(_) => f.tag == TypeTag::Float64,
    }
}

/// A row fits a schema: one cell per field, each fitting its field.
pub open spec fn row_ok(s: Seq<FieldModel>, row: Seq<CellModel>) -> bool {
    &&& row.len() == s.len()
    &&& forall|j: int| 0 <= j < s.len() ==> cell_fits(s[j], #[trigger] row[j])
}

/// The cell a column holds at one row: `Null` where the mask clears the
/// row, else the stored value.
pub open spec fn cell_at(c: ColModel, i: int) -> CellModel {
    if c.valid matches Some(m) && !m[i] {
        CellModel::Null
    } else {
        match c.cells {
            CellsModel::Utf8(vals) => CellModel::Utf8(vals[i]),
            CellsModel::Float64(b) => CellModel::Float64(b[i]),
        }
    }
}

/// Builds one column of one batch from the rows in `[lo, hi)`, at field
/// position `j`.
#[verifier::loop_isolation(false)]
fn build_column(f: &Field, rows: &Vec<Vec<CellValue>>, lo: usize, hi: usize, j: usize) -> (r:
    Result<Column, FlightError>)
    requires
        lo <= hi <= rows@.len(),
        forall|i: int| lo <= i < hi ==> j < (#[trigger] row_models(rows@)[i]).len(),
    ensures
        (r is Ok) == (forall|i: int|
            lo <= i < hi ==> cell_fits(f.model(), #[trigger] row_models(rows@)[i][j as int])),
        r matches Ok(c) ==> col_wf(f.model(), c.model(), (hi - lo) as nat) && (forall|i: int|
            lo <= i < hi ==> cell_at(c.model(), i - lo) == #[trigger] row_models(
                rows@,
            )[i][j as int]),
        r matches Err(e) ==> e is SourceError,
{
    let ghost rm = row_models(rows@);
    match f.tag {
        TypeTag::Utf8 => {
            let mut values: Vec<Vec<u8>> = Vec::new();
            let mut mask: Vec<bool> = Vec::new();
            let mut i: usize = lo;
            while i < hi
                invariant
                    lo <= i <= hi,
                    values@.len() == i - lo,
                    mask@.len() == i - lo,
                    forall|k: int| lo <= k < i as int ==> cell_fits(
                        f.model(),
                        #[trigger] rm[k][j as int],
                    ),
                    forall|k: int| lo <= k < i as int ==> (#[trigger] mask@[k - lo]) == !(
                    rm[k][j as int] is Null),
                    forall|k: int| lo <= k < i as int ==> (mask@[k - lo]
                        ==> CellModel::Utf8(#[trigger] bytes_views(values@)[k - lo])
                        == rm[k][j as int]),
                    forall|k: int| lo <= k < i as int ==> (#[trigger] bytes_views(values@)[k
                        - lo]).len() < 0x1_0000_0000,
                decreases hi - i,
            {
                proof {
                    assert(rm[i as int] == cell_models(rows@[i as int]@));
                    assert(rm[i as int][j as int] == rows@[i as int]@[j as int].model());
                }
                let ghost prev_vals = values@;
                match &rows[i][j] {
                    CellValue::Utf8(v) => {
                        if (v.len() as u64) >= 0x1_0000_0000u64 {
                            return Err(
                                FlightError::SourceError("text cell too long".to_string()),
                            );
                        }
                        values.push(clone_bytes(v));
                        mask.push(true);
                    },
                    CellValue::Null => {
                        if !f.nullable {
                            return Err(
                                FlightError::SourceError(
                                    "null in a non-nullable column".to_string(),
                                ),
                            );
                        }
                        values.push(Vec::new());
                        mask.push(false);
                    },
                    CellValue::Float64(_) => {
                        return Err(
                            FlightError::SourceError("cell type does not match".to_string()),
                        );
                    },
                }
                proof {
                    assert(bytes_views(values@) =~= bytes_views(prev_vals).push(
                        values@[values@.len() - 1]@,
                    ));
                }
                i = i + 1;
            }
            let c = if f.nullable {
                Column::Utf8 { values, valid: Some(mask) }
            } else {
                Column::Utf8 { values, valid: None }
            };
            proof {
                assert forall|t: int| 0 <= t < bytes_views(values@).len() implies (
                #[trigger] bytes_views(values@)[t]).len() < 0x1_0000_0000 by {
                    assert(bytes_views(values@)[(t + lo) - lo].len() < 0x1_0000_0000);
                }
                assert(col_wf(f.model(), c.model(), (hi - lo) as nat));
            }
            Ok(c)
        },
        TypeTag::Float64 => {
            let mut bits: Vec<u64> = Vec::new();
            let mut mask: Vec<bool> = Vec::new();
            let mut i: usize = lo;
            while i < hi
                invariant
                    lo <= i <= hi,
                    bits@.len() == i - lo,
                    mask@.len() == i - lo,
                    forall|k: int| lo <= k < i as int ==> cell_fits(
                        f.model(),
                        #[trigger] rm[k][j as int],
                    ),
                    forall|k: int| lo <= k < i as int ==> (#[trigger] mask@[k - lo]) == !(
                    rm[k][j as int] is Null),
                    forall|k: int| lo <= k < i as int ==> (mask@[k - lo]
                        ==> CellModel::Float64(#[trigger] bits@[k - lo]) == rm[k][j as int]),
                decreases hi - i,
            {
                proof {
                    assert(rm[i as int] == cell_models(rows@[i as int]@));
                    assert(rm[i as int][j as int] == rows@[i as int]@[j as int].model());
                }
                match &rows[i][j] {
                    CellValue::Float64(x) => {
                        bits.push(*x);
                        mask.push(true);
                    },
                    CellValue::Null => {
                        if !f.nullable {
                            return Err(
                                FlightError::SourceError(
                                    "null in a non-nullable column".to_string(),
                                ),
                            );
                        }
                        bits.push(0u64);
                        mask.push(false);
                    },
                    CellValue::Utf8(_) => {
                        return Err(
                            FlightError::SourceError("cell type does not match".to_string()),
                        );
                    },
                }
                i = i + 1;
            }
            let c = if f.nullable {
                Column::Float64 { bits, valid: Some(mask) }
            } else {
                Column::Float64 { bits, valid: None }
            };
            proof {
                assert(col_wf(f.model(), c.model(), (hi - lo) as nat));
            }
            Ok(c)
        },
    }
}

/// Builds one record batch from the rows in `[lo, hi)`: one column per
/// schema field, the cells carried over row by row. Any row that does not
/// fit the schema fails the whole batch with a source error.
#[verifier::loop_isolation(false)]
pub fn build_one_batch(schema: &Schema, rows: &Vec<Vec<CellValue>>, lo: usize, hi: usize) -> (r:
    Result<RecordBatch, FlightError>)
    requires
        lo <= hi <= rows@.len(),
    ensures
        (r is Ok) == (forall|i: int|
            lo <= i < hi ==> row_ok(schema.model(), #[trigger] row_models(rows@)[i])),
        r matches Ok(b) ==> b.model().rows == hi - lo && batch_wf(schema.model(), b.model()) && (
        forall|i: int, j: int|
            lo <= i < hi && 0 <= j < schema.model().len() ==> cell_at(
                #[trigger] b.model().cols[j],
                i - lo,
            ) == #[trigger] row_models(rows@)[i][j]),
        r matches Err(e) ==> e is SourceError,
{
    let ghost rm = row_models(rows@);
    let mut i: usize = lo;
    while i < hi
        invariant
            lo <= i <= hi,
            forall|k: int| lo <= k < i as int ==> (#[trigger] rm[k]).len()
                == schema.model().len(),
        decreases hi - i,
    {
        proof {
            assert(rm[i as int] == cell_models(rows@[i as int]@));
        }
        if rows[i].len() != schema.fields.len() {
            proof {
                assert(!row_ok(schema.model(), rm[i as int]));
            }
            return Err(FlightError::SourceError("row width does not match".to_string()));
        }
        i = i + 1;
    }
    let mut columns: Vec<Column> = Vec::new();
    let mut j: usize = 0;
    while j < schema.fields.len()
        invariant
            j <= schema.fields@.len(),
            columns@.len() == j as int,
            forall|k: int| lo <= k < hi ==> (#[trigger] rm[k]).len() == schema.model().len(),
            forall|j2: int| 0 <= j2 < j as int ==> col_wf(
                schema.model()[j2],
                #[trigger] col_models(columns@)[j2],
                (hi - lo) as nat,
            ),
            forall|k: int, j2: int| lo <= k < hi && 0 <= j2 < j as int ==> cell_at(
                #[trigger] col_models(columns@)[j2],
                k - lo,
            ) == #[trigger] rm[k][j2],
        decreases schema.fields@.len() - j,
    {
        proof {
            assert(schema.model()[j as int] == schema.fields@[j as int].model());
        }
        let ghost prev = columns@;
        match build_column(&schema.fields[j], rows, lo, hi, j) {
            Ok(c) => {
                columns.push(c);
                proof {
                    assert(col_models(columns@) =~= col_models(prev).push(
                        columns@[columns@.len() - 1].model(),
                    ));
                }
            },
            Err(e) => {
                proof {
                    let i0 = choose|i: int|
                        lo <= i < hi && !cell_fits(schema.model()[j as int], rm[i][j as int]);
                    assert(!row_ok(schema.model(), rm[i0]));
                }
                return Err(e);
            },
        }
        j = j + 1;
    }
    let b = RecordBatch { row_count: hi - lo, columns };
    proof {
        assert(b.model().cols == col_models(columns@));
        assert forall|i2: int| lo <= i2 < hi implies row_ok(schema.model(), #[trigger] rm[i2]) by {
            assert(rm[i2].len() == schema.model().len());
            assert forall|j2: int| 0 <= j2 < schema.model().len() implies cell_fits(
                schema.model()[j2],
                #[trigger] rm[i2][j2],
            ) by {
                assert(cell_at(col_models(columns@)[j2], i2 - lo) == rm[i2][j2]);
                assert(col_wf(schema.model()[j2], col_models(columns@)[j2], (hi - lo) as nat));
            }
        }
    }
    Ok(b)
}

/// Splits a row sequence into record batches of at most `batch_size` rows,
/// in order: every batch but the last is full, the last holds the
/// remainder, and each cell is carried over unchanged. Any row that does
/// not fit the schema fails the whole build with a source error.
#[verifier::loop_isolation(false)]
pub fn build_batches(schema: &Schema, rows: &Vec<Vec<CellValue>>, batch_size: usize) -> (r:
    Result<Vec<RecordBatch>, FlightError>)
    requires
        batch_size >= 1,
    ensures
        (r is Ok) == (forall|i: int|
            0 <= i < rows@.len() ==> row_ok(schema.model(), #[trigger] row_models(rows@)[i])),
        r matches Ok(bs) ==> ({
            let n = rows@.len() as int;
            let bsz = batch_size as int;
            &&& (n == 0 ==> bs@.len() == 0)
            &&& (n > 0 ==> bs@.len() >= 1 && n == (bs@.len() - 1) * bsz + batch_models(
                bs@,
            )[bs@.len() - 1].rows && 1 <= batch_models(bs@)[bs@.len() - 1].rows <= bsz)
            &&& forall|k: int|
                0 <= k < bs@.len() - 1 ==> (#[trigger] batch_models(bs@)[k]).rows == bsz
            &&& forall|k: int|
                0 <= k < bs@.len() ==> batch_wf(schema.model(), #[trigger] batch_models(bs@)[k])
            &&& forall|k: int, i: int, j: int|
                0 <= k < bs@.len() && 0 <= i < batch_models(bs@)[k].rows && 0 <= j
                    < schema.model().len() ==> #[trigger] cell_at(batch_models(bs@)[k].cols[j], i)
                    == row_models(rows@)[k * bsz + i][j]
        }),
        r matches Err(e) ==> e is SourceError,
{
    let ghost rm = row_models(rows@);
    let ghost bsz = batch_size as int;
    let mut out: Vec<RecordBatch> = Vec::new();
    let mut lo: usize = 0;
    while lo < rows.len()
        invariant
            lo <= rows@.len(),
            lo as int == out@.len() * bsz,
            forall|i: int| 0 <= i < lo as int ==> row_ok(schema.model(), #[trigger] rm[i]),
            forall|k: int| 0 <= k < out@.len() ==> (#[trigger] batch_models(out@)[k]).rows == bsz,
            forall|k: int|
                0 <= k < out@.len() ==> batch_wf(schema.model(), #[trigger] batch_models(out@)[k]),
            forall|k: int, i: int, j: int|
                0 <= k < out@.len() && 0 <= i < batch_models(out@)[k].rows && 0 <= j
                    < schema.model().len() ==> #[trigger] cell_at(batch_models(out@)[k].cols[j], i)
                    == rm[k * bsz + i][j],
        decreases rows@.len() - lo,
    {
        let hi = if rows.len() - lo < batch_size {
            rows.len()
        } else {
            lo + batch_size
        };
        let ghost prev = out@;
        let ghost kk = prev.len() as int;
        match build_one_batch(schema, rows, lo, hi) {
            Ok(b) => {
                out.push(b);
                proof {
                    assert(batch_models(out@) =~= batch_models(prev).push(
                        out@[out@.len() - 1].model(),
                    ));
                    assert forall|k: int, i: int, j: int|
                        0 <= k < out@.len() && 0 <= i < batch_models(out@)[k].rows && 0 <= j
                            < schema.model().len() implies #[trigger] cell_at(
                        batch_models(out@)[k].cols[j],
                        i,
                    ) == rm[k * bsz + i][j] by {
                        if k < kk {
                            assert(batch_models(out@)[k] == batch_models(prev)[k]);
                            assert(cell_at(batch_models(prev)[k].cols[j], i) == rm[k * bsz + i][j]);
                        } else {
                            assert(batch_models(out@)[k] == out@[out@.len() - 1].model());
                            assert(cell_at(out@[out@.len() - 1].model().cols[j], (lo as int + i)
                                - lo as int) == rm[lo as int + i][j]);
                            assert(k * bsz + i == lo as int + i);
                        }
                    }
                }
            },
            Err(e) => {
                proof {
                    let i0 = choose|i: int|
                        lo as int <= i < hi as int && !row_ok(schema.model(), rm[i]);
                    assert(!row_ok(schema.model(), rm[i0]));
                }
                return Err(e);
            },
        }
        if hi == rows.len() {
            proof {
                let n = rows@.len() as int;
                assert(out@.len() - 1 == kk);
                assert forall|k: int|
                    0 <= k < out@.len() implies batch_wf(
                    schema.model(),
                    #[trigger] batch_models(out@)[k],
                ) by {
                    if k < kk {
                        assert(batch_models(out@)[k] == batch_models(prev)[k]);
                        assert(batch_wf(schema.model(), batch_models(prev)[k]));
                    } else {
                        assert(batch_models(out@)[k] == out@[out@.len() - 1].model());
                    }
                }
                assert(batch_models(out@)[kk].rows == n - kk * bsz);
                assert(n == (out@.len() - 1) * bsz + batch_models(out@)[out@.len() - 1].rows);
                assert forall|k: int|
                    0 <= k < out@.len() - 1 implies (#[trigger] batch_models(out@)[k]).rows == bsz
                by {
                    assert(batch_models(out@)[k] == batch_models(prev)[k]);
                }
                assert forall|i: int| 0 <= i < n implies row_ok(
                    schema.model(),
                    #[trigger] rm[i],
                ) by {
                    if lo as int <= i {
                        assert(row_ok(schema.model(), row_models(rows@)[i]));
                    }
                }
            }
            return Ok(out);
        }
        lo = hi;
        proof {
            assert((kk + 1) * bsz == kk * bsz + bsz) by (nonlinear_arith);
        }
    }
    proof {
        let n = rows@.len() as int;
        assert(lo as int == n);
        if n == 0 {
            assert(out@.len() * bsz == 0);
            assert(out@.len() == 0) by (nonlinear_arith)
                requires
                    out@.len() * bsz == 0,
                    bsz >= 1,
            ;
        }
        if n > 0 {
            assert(out@.len() >= 1) by {
                if out@.len() == 0 {
                    assert(lo as int == 0);
                }
            }
            assert((out@.len() - 1) * bsz + bsz == out@.len() * bsz) by (nonlinear_arith);
            assert(n == (out@.len() - 1) * bsz + batch_models(out@)[out@.len() - 1].rows);
        }
    }
    Ok(out)
}

} // verus!
