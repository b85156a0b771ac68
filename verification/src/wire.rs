use crate::data::{
    batch_wf, col_wf, BatchModel, CellsModel, ColModel, FieldModel, Schema, TypeTag,
};
use vstd::prelude::*;

verus! {

/// Structural header of a batch message: the batch's row count and the byte
/// length of each column's slice of the body, in schema order.
#[derive(Debug)]
pub struct BatchHeader {
    pub row_count: usize,
    pub col_lens: Vec<usize>,
}

/// One self-describing framed unit on the data stream. Exactly one `Schema`
/// message opens a stream; any number of `Batch` messages follow, each with a
/// raw body of validity bytes, string offsets and cell bytes. `Dictionary`
/// stands for payload kinds outside this core, which a decoder skips.
#[derive(Debug)]
pub enum WireMessage {
    Schema { schema: Schema },
    Batch { header: BatchHeader, body: Vec<u8> },
    Dictionary,
}

/// Mathematical model of a wire message.
#[verifier::ext_equal]
pub enum MsgModel {
    SchemaM(Seq<FieldModel>),
    BatchM { rows: nat, lens: Seq<nat>, body: Seq<u8> },
    DictM,
}

pub open spec fn lens_nat(s: Seq<usize>) -> Seq<nat> {
    s.map_values(|x: usize| x as nat)
}

pub open spec fn msg_model(m: WireMessage) -> MsgModel {
    match m {
        WireMessage::Schema { schema } => MsgModel::SchemaM(schema.model()),
        WireMessage::Batch { header, body } => MsgModel::BatchM {
            rows: header.row_count as nat,
            lens: lens_nat(header.col_lens@),
            body: body@,
        },
        WireMessage::Dictionary => MsgModel::DictM,
    }
}

pub open spec fn msg_models(s: Seq<WireMessage>) -> Seq<MsgModel> {
    s.map_values(|m: WireMessage| msg_model(m))
}

// ---------------------------------------------------------------------------
// Byte layout of a batch body, column by column.
// ---------------------------------------------------------------------------

/// Four little-endian bytes of a 32-bit value.
pub open spec fn le4(v: u32) -> Seq<u8> {
    seq![
        (v & 0xff) as u8,
        ((v >> 8) & 0xff) as u8,
        ((v >> 16) & 0xff) as u8,
        ((v >> 24) & 0xff) as u8,
    ]
}

/// The 32-bit value of four little-endian bytes.
pub open spec fn le4_val(b: Seq<u8>) -> u32
    recommends
        b.len() == 4,
{
    (b[0] as u32) | ((b[1] as u32) << 8) | ((b[2] as u32) << 16) | ((b[3] as u32) << 24)
}

/// Eight little-endian bytes of a 64-bit value.
pub open spec fn le8(v: u64) -> Seq<u8> {
    seq![
        (v & 0xff) as u8,
        ((v >> 8) & 0xff) as u8,
        ((v >> 16) & 0xff) as u8,
        ((v >> 24) & 0xff) as u8,
        ((v >> 32) & 0xff) as u8,
        ((v >> 40) & 0xff) as u8,
        ((v >> 48) & 0xff) as u8,
        ((v >> 56) & 0xff) as u8,
    ]
}

/// The 64-bit value of eight little-endian bytes.
pub open spec fn le8_val(b: Seq<u8>) -> u64
    recommends
        b.len() == 8,
{
    (b[0] as u64) | ((b[1] as u64) << 8) | ((b[2] as u64) << 16) | ((b[3] as u64) << 24)
        | ((b[4] as u64) << 32) | ((b[5] as u64) << 40) | ((b[6] as u64) << 48) | ((b[7]
        as u64) << 56)
}

/// One byte per row of a validity mask: 1 where the row holds a value.
pub open spec fn valid_bytes(v: Seq<bool>) -> Seq<u8> {
    Seq::new(v.len(), |i: int| if v[i] { 1u8 } else { 0u8 })
}

pub open spec fn opt_valid_bytes(v: Option<Seq<bool>>) -> Seq<u8> {
    match v {
        Some(s) => valid_bytes(s),
        None => Seq::empty(),
    }
}

/// Text cells: each cell is a 32-bit little-endian length prefix followed by
/// the cell's bytes.
pub open spec fn utf8_cell_bytes(vals: Seq<Seq<u8>>) -> Seq<u8>
    decreases vals.len(),
{
    if vals.len() == 0 {
        Seq::empty()
    } else {
        le4(vals[0].len() as u32) + vals[0] + utf8_cell_bytes(vals.drop_first())
    }
}

/// Float cells: eight bytes per row, the value's 64-bit pattern.
pub open spec fn f64_cell_bytes(bits: Seq<u64>) -> Seq<u8>
    decreases bits.len(),
{
    if bits.len() == 0 {
        Seq::empty()
    } else {
        le8(bits[0]) + f64_cell_bytes(bits.drop_first())
    }
}

pub open spec fn cells_bytes(c: CellsModel) -> Seq<u8> {
    match c {
        CellsModel::Utf8(vals) => utf8_cell_bytes(vals),
        CellsModel::Float64(bits) => f64_cell_bytes(bits),
    }
}

/// A column's slice of the body: its validity bytes, then its cell bytes.
pub open spec fn col_bytes(c: ColModel) -> Seq<u8> {
    opt_valid_bytes(c.valid) + cells_bytes(c.cells)
}

/// The whole body: each column's slice, in schema order.
pub open spec fn body_bytes(cols: Seq<ColModel>) -> Seq<u8>
    decreases cols.len(),
{
    if cols.len() == 0 {
        Seq::empty()
    } else {
        col_bytes(cols[0]) + body_bytes(cols.drop_first())
    }
}

/// The per-column byte lengths a batch header advertises.
pub open spec fn lens_of(cols: Seq<ColModel>) -> Seq<nat> {
    cols.map_values(|c: ColModel| col_bytes(c).len())
}

/// The batch message a batch encodes to.
pub open spec fn batch_msg_of(m: BatchModel) -> MsgModel {
    MsgModel::BatchM { rows: m.rows, lens: lens_of(m.cols), body: body_bytes(m.cols) }
}

/// The batch messages a batch sequence encodes to, in order.
pub open spec fn batch_msgs_of(bs: Seq<BatchModel>) -> Seq<MsgModel> {
    bs.map_values(|m: BatchModel| batch_msg_of(m))
}

/// The message sequence a schema and a batch sequence encode to: one schema
/// message, then one batch message per batch, in order.
pub open spec fn encode_msgs(s: Seq<FieldModel>, bs: Seq<BatchModel>) -> Seq<MsgModel> {
    seq![MsgModel::SchemaM(s)] + batch_msgs_of(bs)
}

// ---------------------------------------------------------------------------
// Parsing a batch body back into columns. Each parser consumes its byte
// range exactly, or rejects.
// ---------------------------------------------------------------------------

/// A validity mask from its bytes; any byte other than 0 or 1 rejects.
pub open spec fn parse_valid(b: Seq<u8>) -> Option<Seq<bool>> {
    if forall|i: int| 0 <= i < b.len() ==> (#[trigger] b[i]) == 0 || b[i] == 1 {
        Some(Seq::new(b.len(), |i: int| b[i] == 1))
    } else {
        None
    }
}

/// Text cells from bytes: `rows` length-prefixed cells, consuming `b`
/// exactly.
pub open spec fn parse_utf8_cells(b: Seq<u8>, rows: nat) -> Option<Seq<Seq<u8>>>
    decreases rows,
{
    if rows == 0 {
        if b.len() == 0 {
            Some(Seq::empty())
        } else {
            None
        }
    } else if b.len() < 4 {
        None
    } else {
        let n = le4_val(b.take(4)) as int;
        if b.len() < 4 + n {
            None
        } else {
            match parse_utf8_cells(b.skip(4 + n), (rows - 1) as nat) {
                Some(rest) => Some(seq![b.subrange(4, 4 + n)] + rest),
                None => None,
            }
        }
    }
}

/// Float cells from bytes: exactly eight bytes per row.
pub open spec fn parse_f64_cells(b: Seq<u8>, rows: nat) -> Option<Seq<u64>> {
    if b.len() == 8 * rows {
        Some(Seq::new(rows, |i: int| le8_val(b.subrange(8 * i, 8 * i + 8))))
    } else {
        None
    }
}

pub open spec fn parse_cells(t: TypeTag, rows: nat, b: Seq<u8>) -> Option<CellsModel> {
    match t {
        TypeTag::Utf8 => match parse_utf8_cells(b, rows) {
            Some(vals) => Some(CellsModel::Utf8(vals)),
            None => None,
        },
        TypeTag::Float64 => match parse_f64_cells(b, rows) {
            Some(bits) => Some(CellsModel::Float64(bits)),
            None => None,
        },
    }
}

/// A column from its slice of the body, driven by its field's tag and
/// nullability.
pub open spec fn parse_col(f: FieldModel, rows: nat, b: Seq<u8>) -> Option<ColModel> {
    if f.nullable {
        if b.len() < rows {
            None
        } else {
            match parse_valid(b.take(rows as int)) {
                Some(v) => match parse_cells(f.tag, rows, b.skip(rows as int)) {
                    Some(c) => Some(ColModel { valid: Some(v), cells: c }),
                    None => None,
                },
                None => None,
            }
        }
    } else {
        match parse_cells(f.tag, rows, b) {
            Some(c) => Some(ColModel { valid: None, cells: c }),
            None => None,
        }
    }
}

/// All columns from a body, each taking the advertised number of bytes; the
/// body and the length list must be consumed exactly.
pub open spec fn parse_cols(
    s: Seq<FieldModel>,
    rows: nat,
    lens: Seq<nat>,
    b: Seq<u8>,
) -> Option<Seq<ColModel>>
    decreases s.len(),
{
    if s.len() == 0 {
        if b.len() == 0 && lens.len() == 0 {
            Some(Seq::empty())
        } else {
            None
        }
    } else if lens.len() == 0 {
        None
    } else if b.len() < lens[0] {
        None
    } else {
        match parse_col(s[0], rows, b.take(lens[0] as int)) {
            Some(c) => match parse_cols(s.drop_first(), rows, lens.drop_first(), b.skip(
                lens[0] as int,
            )) {
                Some(rest) => Some(seq![c] + rest),
                None => None,
            },
            None => None,
        }
    }
}

/// A whole batch from a batch message's header and body.
pub open spec fn parse_batch(
    s: Seq<FieldModel>,
    rows: nat,
    lens: Seq<nat>,
    b: Seq<u8>,
) -> Option<BatchModel> {
    match parse_cols(s, rows, lens, b) {
        Some(cols) => Some(BatchModel { rows, cols }),
        None => None,
    }
}

// ---------------------------------------------------------------------------
// The decoding state machine, at the model level: what a whole message
// sequence decodes to.
// ---------------------------------------------------------------------------

/// Outcome of decoding the batch phase of a stream.
#[verifier::ext_equal]
pub struct BatchDec {
    pub batches: Seq<BatchModel>,
    pub failed: bool,
}

/// Outcome of decoding a whole stream: the schema seen, the batches decoded
/// before any failure, and whether decoding failed.
#[verifier::ext_equal]
pub struct DecResult {
    pub schema: Option<Seq<FieldModel>>,
    pub batches: Seq<BatchModel>,
    pub failed: bool,
}

/// After the schema: batch messages are decoded in order against it,
/// dictionary messages are skipped, a second schema message or a malformed
/// batch fails, and the end of the sequence ends decoding.
pub open spec fn decode_batches(s: Seq<FieldModel>, msgs: Seq<MsgModel>) -> BatchDec
    decreases msgs.len(),
{
    if msgs.len() == 0 {
        BatchDec { batches: Seq::empty(), failed: false }
    } else {
        match msgs[0] {
            MsgModel::DictM => decode_batches(s, msgs.drop_first()),
            MsgModel::SchemaM(_) => BatchDec { batches: Seq::empty(), failed: true },
            MsgModel::BatchM { rows, lens, body } => match parse_batch(s, rows, lens, body) {
                Some(m) => {
                    let rest = decode_batches(s, msgs.drop_first());
                    BatchDec { batches: seq![m] + rest.batches, failed: rest.failed }
                },
                None => BatchDec { batches: Seq::empty(), failed: true },
            },
        }
    }
}

/// A whole stream: dictionary messages before the schema are skipped, the
/// schema message must come before any batch message, and the rest decodes
/// against the schema.
pub open spec fn decode_stream(msgs: Seq<MsgModel>) -> DecResult
    decreases msgs.len(),
{
    if msgs.len() == 0 {
        DecResult { schema: None, batches: Seq::empty(), failed: false }
    } else {
        match msgs[0] {
            MsgModel::DictM => decode_stream(msgs.drop_first()),
            MsgModel::SchemaM(s) => {
                let d = decode_batches(s, msgs.drop_first());
                DecResult { schema: Some(s), batches: d.batches, failed: d.failed }
            },
            MsgModel::BatchM { .. } => DecResult {
                schema: None,
                batches: Seq::empty(),
                failed: true,
            },
        }
    }
}

} // verus!
