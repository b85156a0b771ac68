use vstd::prelude::*;

verus! {

/// The closed set of column types the core supports. Column position, not
/// name, binds wire data to fields; the tag decides how a column's cells are
/// laid out on the wire.
#[derive(Clone, Copy, Debug, PartialEq, Eq, Structural)]
pub enum TypeTag {
    Utf8,
    Float64,
}

/// Mathematical model of a field: its name, type tag and nullability.
#[verifier::ext_equal]
pub struct FieldModel {
    pub name: Seq<char>,
    pub tag: TypeTag,
    pub nullable: bool,
}

/// Mathematical model of one column's cells. A `Float64` cell is carried as
/// the 64-bit pattern of the value; the core moves the pattern and never
/// computes with it.
#[verifier::ext_equal]
pub enum CellsModel {
    Utf8(Seq<Seq<u8>>),
    Float64(Seq<u64>),
}

/// Mathematical model of a column: an optional per-row validity mask
/// (`true` means the row holds a value) and the cells.
#[verifier::ext_equal]
pub struct ColModel {
    pub valid: Option<Seq<bool>>,
    pub cells: CellsModel,
}

/// Mathematical model of a record batch.
#[verifier::ext_equal]
pub struct BatchModel {
    pub rows: nat,
    pub cols: Seq<ColModel>,
}

impl CellsModel {
    pub open spec fn len(self) -> nat {
        match self {
            CellsModel::Utf8(v) => v.len(),
            CellsModel::Float64(v) => v.len(),
        }
    }

    pub open spec fn tag(self) -> TypeTag {
        match self {
            CellsModel::Utf8(_) => TypeTag::Utf8,
            CellsModel::Float64(_) => TypeTag::Float64,
        }
    }
}

/// A column is well formed for a field and a row count when its tag matches
/// the field's, it has one cell per row, it carries a validity mask exactly
/// when the field is nullable, and every text cell's length fits the wire's
/// 32-bit length prefix.
pub open spec fn col_wf(f: FieldModel, c: ColModel, rows: nat) -> bool {
    &&& c.cells.tag() == f.tag
    &&& c.cells.len() == rows
    &&& if f.nullable {
        c.valid matches Some(v) && v.len() == rows
    } else {
        c.valid is None
    }
    &&& match c.cells {
        CellsModel::Utf8(vals) => forall|i: int|
            0 <= i < vals.len() ==> (#[trigger] vals[i]).len() < 0x1_0000_0000,
        CellsModel::Float64(_) => true,
    }
}

/// A batch is well formed for a schema when it has one column per field,
/// each well formed for its field at the batch's row count.
pub open spec fn batch_wf(s: Seq<FieldModel>, b: BatchModel) -> bool {
    &&& b.cols.len() == s.len()
    &&& forall|i: int| 0 <= i < s.len() ==> col_wf(s[i], #[trigger] b.cols[i], b.rows)
}

/// The views of a sequence of byte vectors.
pub open spec fn bytes_views(s: Seq<Vec<u8>>) -> Seq<Seq<u8>> {
    s.map_values(|v: Vec<u8>| v@)
}

/// One field of a schema: name, type tag, nullability. Field order is
/// significant and fixed; the wire binds data to fields by position.
#[derive(Debug)]
pub struct Field {
    pub name: String,
    pub tag: TypeTag,
    pub nullable: bool,
}

impl Field {
    pub open spec fn model(self) -> FieldModel {
        FieldModel { name: self.name@, tag: self.tag, nullable: self.nullable }
    }

    /// A field equal to this one, cell for cell.
    pub fn deep_clone(&self) -> (r: Field)
        ensures
            r.model() == self.model(),
    {
        Field { name: self.name.clone(), tag: self.tag, nullable: self.nullable }
    }
}

/// The models of a sequence of fields.
pub open spec fn field_models(s: Seq<Field>) -> Seq<FieldModel> {
    s.map_values(|f: Field| f.model())
}

/// An ordered field list describing a dataset's columns.
#[derive(Debug)]
pub struct Schema {
    pub fields: Vec<Field>,
}

impl Schema {
    pub open spec fn model(self) -> Seq<FieldModel> {
        field_models(self.fields@)
    }

    /// A schema whose model equals this one's.
    #[verifier::loop_isolation(false)]
    pub fn deep_clone(&self) -> (r: Schema)
        ensures
            r.model() == self.model(),
    {
        let mut fields: Vec<Field> = Vec::new();
        let mut i: usize = 0;
        while i < self.fields.len()
            invariant
                i <= self.fields@.len(),
                fields@.len() == i as int,
                forall|j: int| 0 <= j < i as int ==> (#[trigger] fields@[j]).model()
                    == self.fields@[j].model(),
            decreases self.fields@.len() - i,
        {
            fields.push(self.fields[i].deep_clone());
            i = i + 1;
        }
        let r = Schema { fields };
        proof {
            assert(r.model() =~= self.model());
        }
        r
    }
}

/// One column of a batch, in the representation the codec works on.
#[derive(Debug)]
pub enum Column {
    Utf8 { values: Vec<Vec<u8>>, valid: Option<Vec<bool>> },
    Float64 { bits: Vec<u64>, valid: Option<Vec<bool>> },
}

pub open spec fn opt_mask_view(v: Option<Vec<bool>>) -> Option<Seq<bool>> {
    match v {
        Some(b) => Some(b@),
        None => None,
    }
}

impl Column {
    pub open spec fn model(self) -> ColModel {
        match self {
            Column::Utf8 { values, valid } => ColModel {
                valid: opt_mask_view(valid),
                cells: CellsModel::Utf8(bytes_views(values@)),
            },
            Column::Float64 { bits, valid } => ColModel {
                valid: opt_mask_view(valid),
                cells: CellsModel::Float64(bits@),
            },
        }
    }
}

/// The models of a sequence of columns.
pub open spec fn col_models(s: Seq<Column>) -> Seq<ColModel> {
    s.map_values(|c: Column| c.model())
}

/// One chunk of row-aligned columnar data: `row_count` rows, one column per
/// schema field, in schema order.
#[derive(Debug)]
pub struct RecordBatch {
    pub row_count: usize,
    pub columns: Vec<Column>,
}

impl RecordBatch {
    pub open spec fn model(self) -> BatchModel {
        BatchModel {
            rows: self.row_count as nat,
            cols: col_models(self.columns@),
        }
    }
}

/// The models of a sequence of record batches.
pub open spec fn batch_models(s: Seq<RecordBatch>) -> Seq<BatchModel> {
    s.map_values(|b: RecordBatch| b.model())
}

/// Decides whether one column is well formed for a field at a row count.
#[verifier::loop_isolation(false)]
fn column_conforms(f: &Field, c: &Column, rows: usize) -> (r: bool)
    ensures
        r == col_wf(f.model(), c.model(), rows as nat),
{
    match c {
        Column::Utf8 { values, valid } => {
            if !matches!(f.tag, TypeTag::Utf8) {
                return false;
            }
            if values.len() != rows {
                return false;
            }
            match (f.nullable, valid) {
                (true, Some(v)) => {
                    if v.len() != rows {
                        return false;
                    }
                },
                (false, None) => {},
                _ => {
                    return false;
                },
            }
            let mut i: usize = 0;
            while i < values.len()
                invariant
                    i <= values@.len(),
                    forall|j: int| 0 <= j < i as int ==> (#[trigger] values@[j])@.len()
                        < 0x1_0000_0000,
                decreases values@.len() - i,
            {
                if (values[i].len() as u64) >= 0x1_0000_0000u64 {
                    proof {
                        let vals = bytes_views(values@);
                        assert(vals[i as int] == values@[i as int]@);
                    }
                    return false;
                }
                i = i + 1;
            }
            proof {
                let vals = bytes_views(values@);
                assert(forall|j: int| 0 <= j < vals.len() ==> (#[trigger] vals[j]).len()
                    < 0x1_0000_0000) by {
                    assert(forall|j: int| 0 <= j < values@.len() ==> vals[j] == (
                    #[trigger] values@[j])@);
                }
            }
            true
        },
        Column::Float64 { bits, valid } => {
            if !matches!(f.tag, TypeTag::Float64) {
                return false;
            }
            if bits.len() != rows {
                return false;
            }
            match (f.nullable, valid) {
                (true, Some(v)) => v.len() == rows,
                (false, None) => true,
                _ => false,
            }
        },
    }
}

/// Decides whether a batch is well formed for a schema: one column per
/// field, each conforming at the batch's row count.
#[verifier::loop_isolation(false)]
pub fn batch_conforms(s: &Schema, b: &RecordBatch) -> (r: bool)
    ensures
        r == batch_wf(s.model(), b.model()),
{
    if b.columns.len() != s.fields.len() {
        return false;
    }
    let mut i: usize = 0;
    while i < s.fields.len()
        invariant
            i <= s.fields@.len(),
            b.columns@.len() == s.fields@.len(),
            forall|j: int| 0 <= j < i as int ==> col_wf(
                s.model()[j],
                #[trigger] b.model().cols[j],
                b.model().rows,
            ),
        decreases s.fields@.len() - i,
    {
        if !column_conforms(&s.fields[i], &b.columns[i], b.row_count) {
            proof {
                assert(b.model().cols[i as int] == b.columns@[i as int].model());
                assert(s.model()[i as int] == s.fields@[i as int].model());
            }
            return false;
        }
        i = i + 1;
    }
    true
}

} // verus!
