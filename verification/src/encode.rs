use crate::data::{
    batch_conforms, batch_wf, bytes_views, col_models, col_wf, BatchModel, CellsModel, ColModel,
    Column, RecordBatch, Schema,
};
use crate::error::FlightError;
use crate::wire::{
    batch_msg_of, body_bytes, col_bytes, f64_cell_bytes, le4, le8, lens_nat, lens_of, msg_model,
    opt_valid_bytes, utf8_cell_bytes, valid_bytes, BatchHeader, MsgModel, WireMessage,
};
use vstd::prelude::*;

verus! {

/// A column can be laid out on the wire when every text cell's length fits
/// the 32-bit length prefix. Well-formedness for any field implies this.
pub open spec fn col_encodable(c: ColModel) -> bool {
    match c.cells {
        CellsModel::Utf8(vals) => forall|i: int|
            0 <= i < vals.len() ==> (#[trigger] vals[i]).len() < 0x1_0000_0000,
        CellsModel::Float64(_) => true,
    }
}

fn push_le4(out: &mut Vec<u8>, v: u32)
    ensures
        final(out)@ == old(out)@ + le4(v),
{
    out.push((v & 0xff) as u8);
    out.push(((v >> 8) & 0xff) as u8);
    out.push(((v >> 16) & 0xff) as u8);
    out.push(((v >> 24) & 0xff) as u8);
    proof {
        assert(out@ =~= old(out)@ + le4(v));
    }
}

fn push_le8(out: &mut Vec<u8>, v: u64)
    ensures
        final(out)@ == old(out)@ + le8(v),
{
    out.push((v & 0xff) as u8);
    out.push(((v >> 8) & 0xff) as u8);
    out.push(((v >> 16) & 0xff) as u8);
    out.push(((v >> 24) & 0xff) as u8);
    out.push(((v >> 32) & 0xff) as u8);
    out.push(((v >> 40) & 0xff) as u8);
    out.push(((v >> 48) & 0xff) as u8);
    out.push(((v >> 56) & 0xff) as u8);
    proof {
        assert(out@ =~= old(out)@ + le8(v));
    }
}

#[verifier::loop_isolation(false)]
fn push_bytes(out: &mut Vec<u8>, src: &Vec<u8>)
    ensures
        final(out)@ == old(out)@ + src@,
{
    let mut i: usize = 0;
    while i < src.len()
        invariant
            i <= src@.len(),
            out@ == old(out)@ + src@.take(i as int),
        decreases src@.len() - i,
    {
        out.push(src[i]);
        proof {
            assert(out@ =~= old(out)@ + src@.take(i as int + 1));
        }
        i = i + 1;
    }
    proof {
        assert(src@.take(src@.len() as int) =~= src@);
    }
}

#[verifier::loop_isolation(false)]
fn push_valid(out: &mut Vec<u8>, mask: &Vec<bool>)
    ensures
        final(out)@ == old(out)@ + valid_bytes(mask@),
{
    let mut i: usize = 0;
    while i < mask.len()
        invariant
            i <= mask@.len(),
            out@ == old(out)@ + valid_bytes(mask@).take(i as int),
        decreases mask@.len() - i,
    {
        if mask[i] {
            out.push(1u8);
        } else {
            out.push(0u8);
        }
        proof {
            assert(out@ =~= old(out)@ + valid_bytes(mask@).take(i as int + 1));
        }
        i = i + 1;
    }
    proof {
        assert(valid_bytes(mask@).take(mask@.len() as int) =~= valid_bytes(mask@));
    }
}

proof fn lemma_utf8_cells_push(vals: Seq<Seq<u8>>, x: Seq<u8>)
    ensures
        utf8_cell_bytes(vals.push(x)) == utf8_cell_bytes(vals) + le4(x.len() as u32) + x,
    decreases vals.len(),
{
    if vals.len() == 0 {
        assert(vals.push(x).drop_first() =~= Seq::<Seq<u8>>::empty());
        assert(vals =~= Seq::<Seq<u8>>::empty());
        assert(utf8_cell_bytes(vals.push(x)) =~= utf8_cell_bytes(vals) + le4(x.len() as u32) + x);
    } else {
        lemma_utf8_cells_push(vals.drop_first(), x);
        assert(vals.push(x).drop_first() =~= vals.drop_first().push(x));
        assert(utf8_cell_bytes(vals.push(x)) =~= utf8_cell_bytes(vals) + le4(x.len() as u32) + x);
    }
}

proof fn lemma_f64_cells_push(bits: Seq<u64>, x: u64)
    ensures
        f64_cell_bytes(bits.push(x)) == f64_cell_bytes(bits) + le8(x),
    decreases bits.len(),
{
    if bits.len() == 0 {
        assert(bits.push(x).drop_first() =~= Seq::<u64>::empty());
        assert(bits =~= Seq::<u64>::empty());
        assert(f64_cell_bytes(bits.push(x)) =~= f64_cell_bytes(bits) + le8(x));
    } else {
        lemma_f64_cells_push(bits.drop_first(), x);
        assert(bits.push(x).drop_first() =~= bits.drop_first().push(x));
        assert(f64_cell_bytes(bits.push(x)) =~= f64_cell_bytes(bits) + le8(x));
    }
}

pub proof fn lemma_body_bytes_push(cols: Seq<ColModel>, c: ColModel)
    ensures
        body_bytes(cols.push(c)) == body_bytes(cols) + col_bytes(c),
    decreases cols.len(),
{
    if cols.len() == 0 {
        assert(cols.push(c).drop_first() =~= Seq::<ColModel>::empty());
        assert(cols =~= Seq::<ColModel>::empty());
        assert(body_bytes(cols.push(c)) =~= body_bytes(cols) + col_bytes(c));
    } else {
        lemma_body_bytes_push(cols.drop_first(), c);
        assert(cols.push(c).drop_first() =~= cols.drop_first().push(c));
        assert(body_bytes(cols.push(c)) =~= body_bytes(cols) + col_bytes(c));
    }
}

/// Appends one column's slice of a batch body: validity bytes first where
/// the column carries a mask, then the cell bytes.
#[verifier::loop_isolation(false)]
fn encode_column(c: &Column, out: &mut Vec<u8>)
    requires
        col_encodable(c.model()),
    ensures
        final(out)@ == old(out)@ + col_bytes(c.model()),
{
    match c {
        Column::Utf8 { values, valid } => {
            match valid {
                Some(m) => push_valid(out, m),
                None => {},
            }
            proof {
                assert(out@ =~= old(out)@ + opt_valid_bytes(c.model().valid));
            }
            let ghost base = out@;
            let ghost vals = bytes_views(values@);
            let mut i: usize = 0;
            while i < values.len()
                invariant
                    i <= values@.len(),
                    out@ == base + utf8_cell_bytes(vals.take(i as int)),
                decreases values@.len() - i,
            {
                proof {
                    assert(vals[i as int] == values@[i as int]@);
                }
                push_le4(out, values[i].len() as u32);
                push_bytes(out, &values[i]);
                proof {
                    lemma_utf8_cells_push(vals.take(i as int), vals[i as int]);
                    assert(vals.take(i as int).push(vals[i as int]) =~= vals.take(i as int + 1));
                    assert(out@ =~= base + utf8_cell_bytes(vals.take(i as int + 1)));
                }
                i = i + 1;
            }
            proof {
                assert(vals.take(values@.len() as int) =~= vals);
                assert(out@ =~= old(out)@ + col_bytes(c.model()));
            }
        },
        Column::Float64 { bits, valid } => {
            match valid {
                Some(m) => push_valid(out, m),
                None => {},
            }
            proof {
                assert(out@ =~= old(out)@ + opt_valid_bytes(c.model().valid));
            }
            let ghost base = out@;
            let mut i: usize = 0;
            while i < bits.len()
                invariant
                    i <= bits@.len(),
                    out@ == base + f64_cell_bytes(bits@.take(i as int)),
                decreases bits@.len() - i,
            {
                push_le8(out, bits[i]);
                proof {
                    lemma_f64_cells_push(bits@.take(i as int), bits@[i as int]);
                    assert(bits@.take(i as int).push(bits@[i as int]) =~= bits@.take(i as int + 1));
                    assert(out@ =~= base + f64_cell_bytes(bits@.take(i as int + 1)));
                }
                i = i + 1;
            }
            proof {
                assert(bits@.take(bits@.len() as int) =~= bits@);
                assert(out@ =~= old(out)@ + col_bytes(c.model()));
            }
        },
    }
}

/// Builds the batch message for one record batch: the header advertises the
/// row count and each column's byte length, the body holds the column
/// slices in schema order. A batch that does not conform to the schema is
/// rejected with a protocol error and encoding of the stream stops there.
#[verifier::loop_isolation(false)]
pub fn encode_batch_message(schema: &Schema, b: &RecordBatch) -> (r: Result<
    WireMessage,
    FlightError,
>)
    ensures
        batch_wf(schema.model(), b.model()) ==> (r matches Ok(msg) && msg_model(msg)
            == batch_msg_of(b.model())),
        !batch_wf(schema.model(), b.model()) ==> (r matches Err(e) && e is ProtocolError),
{
    if !batch_conforms(schema, b) {
        return Err(
            FlightError::ProtocolError("batch does not conform to the schema".to_string()),
        );
    }
    let ghost cm = col_models(b.columns@);
    let mut body: Vec<u8> = Vec::new();
    let mut col_lens: Vec<usize> = Vec::new();
    let mut i: usize = 0;
    while i < b.columns.len()
        invariant
            i <= b.columns@.len(),
            body@ == body_bytes(cm.take(i as int)),
            col_lens@.len() == i as int,
            lens_nat(col_lens@) == lens_of(cm.take(i as int)),
        decreases b.columns@.len() - i,
    {
        let before = body.len();
        proof {
            assert(cm[i as int] == b.columns@[i as int].model());
            assert(col_wf(schema.model()[i as int], cm[i as int], b.model().rows));
        }
        encode_column(&b.columns[i], &mut body);
        let ghost prev_lens = col_lens@;
        col_lens.push(body.len() - before);
        proof {
            lemma_body_bytes_push(cm.take(i as int), cm[i as int]);
            assert(cm.take(i as int).push(cm[i as int]) =~= cm.take(i as int + 1));
            assert(body@ =~= body_bytes(cm.take(i as int + 1)));
            assert(body@.len() == before + col_bytes(cm[i as int]).len());
            assert forall|j: int| 0 <= j < i as int + 1 implies lens_nat(col_lens@)[j]
                == lens_of(cm.take(i as int + 1))[j] by {
                if j < i as int {
                    assert(col_lens@[j] == prev_lens[j]);
                    assert(lens_nat(prev_lens)[j] == lens_of(cm.take(i as int))[j]);
                    assert(cm.take(i as int + 1)[j] == cm.take(i as int)[j]);
                } else {
                    assert(col_lens@[j] == body@.len() - before);
                    assert(cm.take(i as int + 1)[j] == cm[i as int]);
                }
            }
            assert(lens_nat(col_lens@) =~= lens_of(cm.take(i as int + 1)));
        }
        i = i + 1;
    }
    proof {
        assert(cm.take(b.columns@.len() as int) =~= cm);
    }
    let msg = WireMessage::Batch {
        header: BatchHeader { row_count: b.row_count, col_lens },
        body,
    };
    proof {
        assert(msg_model(msg) =~= batch_msg_of(b.model()));
    }
    Ok(msg)
}

/// The server-side message encoder for one stream: it holds the stream's
/// schema, opens the stream with the schema message, and turns each record
/// batch into one batch message, in source order.
pub struct StreamEncoder {
    pub schema: Schema,
}

impl StreamEncoder {
    pub fn new(schema: Schema) -> (r: StreamEncoder)
        ensures
            r.schema == schema,
    {
        StreamEncoder { schema }
    }

    /// The schema message that opens the stream; it always comes first.
    pub fn schema_message(&self) -> (r: WireMessage)
        ensures
            msg_model(r) == MsgModel::SchemaM(self.schema.model()),
    {
        WireMessage::Schema { schema: self.schema.deep_clone() }
    }

    /// The batch message for the next record batch of the stream.
    pub fn batch_message(&self, b: &RecordBatch) -> (r: Result<WireMessage, FlightError>)
        ensures
            batch_wf(self.schema.model(), b.model()) ==> (r matches Ok(msg) && msg_model(msg)
                == batch_msg_of(b.model())),
            !batch_wf(self.schema.model(), b.model()) ==> (r matches Err(e) && e
                is ProtocolError),
    {
        encode_batch_message(&self.schema, b)
    }
}

} // verus!
