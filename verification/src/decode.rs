use crate::data::{
    batch_models, bytes_views, col_models, BatchModel, ColModel, Column, Field, FieldModel,
    RecordBatch, Schema, TypeTag,
};
use crate::error::FlightError;
use crate::wire::{
    decode_batches, decode_stream, le4_val, le8_val, lens_nat, msg_model, msg_models, parse_batch,
    parse_cells, parse_col, parse_cols, parse_f64_cells, parse_utf8_cells, parse_valid,
    BatchHeader, DecResult, MsgModel, WireMessage,
};
use vstd::prelude::*;

verus! {

fn read_le4(b: &Vec<u8>, i: usize) -> (r: u32)
    requires
        i + 4 <= b@.len(),
    ensures
        r == le4_val(b@.subrange(i as int, i as int + 4)),
{
    let blen = b.len();
    proof {
        assert(blen == b@.len());
    }
    let r = (b[i] as u32) | ((b[i + 1] as u32) << 8) | ((b[i + 2] as u32) << 16) | ((b[i + 3]
        as u32) << 24);
    proof {
        let s = b@.subrange(i as int, i as int + 4);
        assert(s[0] == b@[i as int]);
        assert(s[1] == b@[i as int + 1]);
        assert(s[2] == b@[i as int + 2]);
        assert(s[3] == b@[i as int + 3]);
    }
    r
}

fn read_le8(b: &Vec<u8>, i: usize) -> (r: u64)
    requires
        i + 8 <= b@.len(),
    ensures
        r == le8_val(b@.subrange(i as int, i as int + 8)),
{
    let blen = b.len();
    proof {
        assert(blen == b@.len());
    }
    let r = (b[i] as u64) | ((b[i + 1] as u64) << 8) | ((b[i + 2] as u64) << 16) | ((b[i + 3]
        as u64) << 24) | ((b[i + 4] as u64) << 32) | ((b[i + 5] as u64) << 40) | ((b[i + 6]
        as u64) << 48) | ((b[i + 7] as u64) << 56);
    proof {
        let s = b@.subrange(i as int, i as int + 8);
        assert(s[0] == b@[i as int]);
        assert(s[1] == b@[i as int + 1]);
        assert(s[2] == b@[i as int + 2]);
        assert(s[3] == b@[i as int + 3]);
        assert(s[4] == b@[i as int + 4]);
        assert(s[5] == b@[i as int + 5]);
        assert(s[6] == b@[i as int + 6]);
        assert(s[7] == b@[i as int + 7]);
    }
    r
}

#[verifier::loop_isolation(false)]
fn copy_range(b: &Vec<u8>, start: usize, end: usize) -> (r: Vec<u8>)
    requires
        start <= end <= b@.len(),
    ensures
        r@ == b@.subrange(start as int, end as int),
{
    let mut out: Vec<u8> = Vec::new();
    let mut i: usize = start;
    while i < end
        invariant
            start <= i <= end,
            out@ == b@.subrange(start as int, i as int),
        decreases end - i,
    {
        out.push(b[i]);
        proof {
            assert(out@ =~= b@.subrange(start as int, i as int + 1));
        }
        i = i + 1;
    }
    out
}

#[verifier::loop_isolation(false)]
fn decode_valid(b: &Vec<u8>, start: usize, end: usize) -> (r: Option<Vec<bool>>)
    requires
        start <= end <= b@.len(),
    ensures
        ({
            let p = parse_valid(b@.subrange(start as int, end as int));
            match r {
                Some(m) => p matches Some(v) && m@ == v,
                None => p is None,
            }
        }),
{
    let ghost sub = b@.subrange(start as int, end as int);
    let mut out: Vec<bool> = Vec::new();
    let mut i: usize = start;
    while i < end
        invariant
            start <= i <= end,
            out@.len() == i - start,
            forall|j: int| 0 <= j < out@.len() ==> (#[trigger] out@[j]) == (sub[j] == 1),
            forall|j: int| 0 <= j < i - start ==> (#[trigger] sub[j]) == 0 || sub[j] == 1,
        decreases end - i,
    {
        let v = b[i];
        if v > 1 {
            proof {
                assert(sub[i - start] == b@[i as int]);
                assert(parse_valid(sub) is None);
            }
            return None;
        }
        out.push(v == 1);
        i = i + 1;
    }
    proof {
        assert(parse_valid(sub) matches Some(v) && out@ =~= v);
    }
    Some(out)
}

fn decode_utf8_cells(b: &Vec<u8>, start: usize, end: usize, rows: usize, out: &mut Vec<
    Vec<u8>,
>) -> (ok: bool)
    requires
        start <= end <= b@.len(),
    ensures
        ({
            let p = parse_utf8_cells(b@.subrange(start as int, end as int), rows as nat);
            match p {
                Some(vals) => ok && bytes_views(final(out)@) == bytes_views(old(out)@) + vals,
                None => !ok,
            }
        }),
    decreases rows,
{
    let ghost sub = b@.subrange(start as int, end as int);
    if rows == 0 {
        if start == end {
            proof {
                assert(bytes_views(out@) =~= bytes_views(out@) + Seq::<Seq<u8>>::empty());
            }
            true
        } else {
            false
        }
    } else if end - start < 4 {
        false
    } else {
        let n32 = read_le4(b, start);
        proof {
            assert(sub.take(4) =~= b@.subrange(start as int, start as int + 4));
        }
        let ghost n = le4_val(sub.take(4)) as int;
        if ((end - start - 4) as u64) < (n32 as u64) {
            proof {
                assert(sub.len() < 4 + n);
            }
            return false;
        }
        let cell_len = n32 as usize;
        let cell = copy_range(b, start + 4, start + 4 + cell_len);
        proof {
            assert(cell@ =~= sub.subrange(4, 4 + n));
        }
        out.push(cell);
        let ghost mid = out@;
        proof {
            assert(bytes_views(mid) =~= bytes_views(old(out)@) + seq![sub.subrange(4, 4 + n)]);
        }
        let ok = decode_utf8_cells(b, start + 4 + cell_len, end, rows - 1, out);
        proof {
            assert(sub.skip(4 + n) =~= b@.subrange(start as int + 4 + n, end as int));
            match parse_utf8_cells(sub.skip(4 + n), (rows - 1) as nat) {
                Some(rest) => {
                    assert(bytes_views(out@) =~= bytes_views(old(out)@) + (seq![
                        sub.subrange(4, 4 + n),
                    ] + rest));
                },
                None => {},
            }
        }
        ok
    }
}

#[verifier::loop_isolation(false)]
fn decode_f64_cells(b: &Vec<u8>, start: usize, end: usize, rows: usize) -> (r: Option<Vec<u64>>)
    requires
        start <= end <= b@.len(),
    ensures
        ({
            let p = parse_f64_cells(b@.subrange(start as int, end as int), rows as nat);
            match r {
                Some(v) => p matches Some(bits) && v@ == bits,
                None => p is None,
            }
        }),
{
    let ghost sub = b@.subrange(start as int, end as int);
    let avail = end - start;
    if (avail as u128) != 8u128 * (rows as u128) {
        proof {
            assert(sub.len() != 8 * rows as nat);
        }
        return None;
    }
    let mut out: Vec<u64> = Vec::new();
    let mut i: usize = 0;
    while i < rows
        invariant
            i <= rows,
            avail == end - start,
            avail as int == 8 * rows as int,
            out@.len() == i as int,
            forall|j: int| 0 <= j < i as int ==> (#[trigger] out@[j]) == le8_val(
                b@.subrange(start as int + 8 * j, start as int + 8 * j + 8),
            ),
        decreases rows - i,
    {
        proof {
            assert(8 * i as int + 8 <= 8 * rows as int);
        }
        let v = read_le8(b, start + 8 * i);
        out.push(v);
        i = i + 1;
    }
    proof {
        let bits = Seq::new(rows as nat, |j: int| le8_val(sub.subrange(8 * j, 8 * j + 8)));
        assert forall|j: int| 0 <= j < rows as int implies out@[j] == bits[j] by {
            assert(sub.subrange(8 * j, 8 * j + 8) =~= b@.subrange(
                start as int + 8 * j,
                start as int + 8 * j + 8,
            ));
        }
        assert(out@ =~= bits);
    }
    Some(out)
}

/// Decodes the cell bytes of one column and attaches the given validity
/// mask, producing the column value.
fn decode_cells_part(
    tag: TypeTag,
    rows: usize,
    b: &Vec<u8>,
    start: usize,
    end: usize,
    valid: Option<Vec<bool>>,
) -> (r: Option<Column>)
    requires
        start <= end <= b@.len(),
    ensures
        ({
            let p = parse_cells(tag, rows as nat, b@.subrange(start as int, end as int));
            match p {
                Some(cells) => r matches Some(c) && c.model() == (ColModel {
                    valid: crate::data::opt_mask_view(valid),
                    cells,
                }),
                None => r is None,
            }
        }),
{
    match tag {
        TypeTag::Utf8 => {
            let mut values: Vec<Vec<u8>> = Vec::new();
            let ok = decode_utf8_cells(b, start, end, rows, &mut values);
            if !ok {
                return None;
            }
            let c = Column::Utf8 { values, valid };
            proof {
                match parse_utf8_cells(b@.subrange(start as int, end as int), rows as nat) {
                    Some(vals) => {
                        assert(bytes_views(Seq::<Vec<u8>>::empty()) =~= Seq::<Seq<u8>>::empty());
                        assert(Seq::<Seq<u8>>::empty() + vals =~= vals);
                    },
                    None => {},
                }
            }
            Some(c)
        },
        TypeTag::Float64 => {
            match decode_f64_cells(b, start, end, rows) {
                Some(bits) => Some(Column::Float64 { bits, valid }),
                None => None,
            }
        },
    }
}

/// Decodes one column from its slice of a batch body, driven by its field.
fn decode_column(f: &Field, rows: usize, b: &Vec<u8>, start: usize, end: usize) -> (r: Option<
    Column,
>)
    requires
        start <= end <= b@.len(),
    ensures
        ({
            let p = parse_col(f.model(), rows as nat, b@.subrange(start as int, end as int));
            match r {
                Some(c) => p matches Some(m) && c.model() == m,
                None => p is None,
            }
        }),
{
    let ghost sub = b@.subrange(start as int, end as int);
    if f.nullable {
        if end - start < rows {
            return None;
        }
        proof {
            assert(sub.take(rows as int) =~= b@.subrange(start as int, start as int + rows as int));
            assert(sub.skip(rows as int) =~= b@.subrange(start as int + rows as int, end as int));
        }
        let mask = match decode_valid(b, start, start + rows) {
            Some(m) => m,
            None => {
                return None;
            },
        };
        decode_cells_part(f.tag, rows, b, start + rows, end, Some(mask))
    } else {
        decode_cells_part(f.tag, rows, b, start, end, None)
    }
}

/// Decodes all columns of a batch body, each taking the byte count its
/// header entry advertises; the body must be consumed exactly.
fn decode_cols(
    schema: &Schema,
    rows: usize,
    lens: &Vec<usize>,
    k: usize,
    body: &Vec<u8>,
    off: usize,
    out: &mut Vec<Column>,
) -> (ok: bool)
    requires
        k <= schema.fields@.len(),
        k <= lens@.len(),
        off <= body@.len(),
    ensures
        ({
            let p = parse_cols(
                schema.model().skip(k as int),
                rows as nat,
                lens_nat(lens@).skip(k as int),
                body@.subrange(off as int, body@.len() as int),
            );
            match p {
                Some(cols) => ok && col_models(final(out)@) == col_models(old(out)@) + cols,
                None => !ok,
            }
        }),
    decreases schema.fields@.len() - k,
{
    let ghost s_rest = schema.model().skip(k as int);
    let ghost l_rest = lens_nat(lens@).skip(k as int);
    let ghost b_rest = body@.subrange(off as int, body@.len() as int);
    if k == schema.fields.len() {
        if k == lens.len() && off == body.len() {
            proof {
                assert(col_models(out@) =~= col_models(out@) + Seq::<ColModel>::empty());
            }
            true
        } else {
            false
        }
    } else if k == lens.len() {
        false
    } else {
        let l = lens[k];
        proof {
            assert(l_rest[0] == lens@[k as int] as nat);
        }
        if body.len() - off < l {
            return false;
        }
        proof {
            assert(s_rest[0] == schema.fields@[k as int].model());
            assert(b_rest.take(l as int) =~= body@.subrange(off as int, off as int + l as int));
        }
        let c = match decode_column(&schema.fields[k], rows, body, off, off + l) {
            Some(c) => c,
            None => {
                return false;
            },
        };
        out.push(c);
        let ghost mid = out@;
        proof {
            assert(col_models(mid) =~= col_models(old(out)@) + seq![mid[mid.len() - 1].model()]);
        }
        let ok = decode_cols(schema, rows, lens, k + 1, body, off + l, out);
        proof {
            assert(b_rest.skip(l as int) =~= body@.subrange(off as int + l as int, body@.len()
                as int));
            assert(s_rest.drop_first() =~= schema.model().skip(k as int + 1));
            assert(l_rest.drop_first() =~= lens_nat(lens@).skip(k as int + 1));
            match parse_cols(
                schema.model().skip(k as int + 1),
                rows as nat,
                lens_nat(lens@).skip(k as int + 1),
                b_rest.skip(l as int),
            ) {
                Some(rest) => {
                    match parse_col(s_rest[0], rows as nat, b_rest.take(l as int)) {
                        Some(m) => {
                            assert(col_models(out@) =~= col_models(old(out)@) + (seq![m] + rest));
                        },
                        None => {},
                    }
                },
                None => {},
            }
        }
        ok
    }
}

/// Decodes a whole batch message against a schema: the header's layout must
/// be consistent with the schema and the body must parse exactly; anything
/// else is a protocol error.
pub fn decode_batch_message(schema: &Schema, header: &BatchHeader, body: &Vec<u8>) -> (r: Result<
    RecordBatch,
    FlightError,
>)
    ensures
        ({
            let p = parse_batch(
                schema.model(),
                header.row_count as nat,
                lens_nat(header.col_lens@),
                body@,
            );
            match p {
                Some(m) => r matches Ok(b) && b.model() == m,
                None => r matches Err(e) && e is ProtocolError,
            }
        }),
{
    let mut columns: Vec<Column> = Vec::new();
    let ok = decode_cols(schema, header.row_count, &header.col_lens, 0, body, 0, &mut columns);
    proof {
        assert(schema.model().skip(0) =~= schema.model());
        assert(lens_nat(header.col_lens@).skip(0) =~= lens_nat(header.col_lens@));
        assert(body@.subrange(0, body@.len() as int) =~= body@);
    }
    if ok {
        let b = RecordBatch { row_count: header.row_count, columns };
        proof {
            match parse_cols(
                schema.model(),
                header.row_count as nat,
                lens_nat(header.col_lens@),
                body@,
            ) {
                Some(cols) => {
                    assert(col_models(Seq::<Column>::empty()) =~= Seq::<ColModel>::empty());
                    assert(Seq::<ColModel>::empty() + cols =~= cols);
                    assert(b.model() =~= BatchModel { rows: header.row_count as nat, cols });
                },
                None => {},
            }
        }
        Ok(b)
    } else {
        Err(FlightError::ProtocolError("malformed batch message".to_string()))
    }
}

/// The states of the decoding state machine.
#[derive(Clone, Copy, Debug, PartialEq, Eq, Structural)]
pub enum DecoderState {
    ExpectSchema,
    ExpectBatchOrEnd,
    Done,
    Failed,
}

/// What one decoded message yields to the caller.
#[derive(Debug)]
pub enum DecodeEvent {
    GotSchema(Schema),
    GotBatch(RecordBatch),
    Ignored,
}

/// The client-side decoding state machine. It starts expecting the schema
/// message, stores the schema when it arrives, then decodes each batch
/// message against it; a batch before the schema, a second schema, or a
/// malformed batch moves it to `Failed` and nothing more is produced.
/// Dictionary-kind messages are skipped and do not advance the machine.
#[derive(Debug)]
pub struct Decoder {
    pub state: DecoderState,
    pub schema: Option<Schema>,
}

impl Decoder {
    /// Past `ExpectSchema`, the machine holds the schema it saw.
    pub open spec fn wf(self) -> bool {
        self.state is ExpectBatchOrEnd ==> self.schema is Some
    }

    /// The model of the stored schema.
    pub open spec fn schema_model(self) -> Seq<FieldModel> {
        match self.schema {
            Some(s) => s.model(),
            None => Seq::empty(),
        }
    }

    pub fn new() -> (r: Decoder)
        ensures
            r.state is ExpectSchema,
            r.schema is None,
            r.wf(),
    {
        Decoder { state: DecoderState::ExpectSchema, schema: None }
    }

    /// Ends the stream: with no more messages and no failure, the machine
    /// is done; nothing more will be produced.
    pub fn finish(&mut self)
        requires
            old(self).state is ExpectSchema || old(self).state is ExpectBatchOrEnd,
        ensures
            final(self).state is Done,
            final(self).schema == old(self).schema,
            final(self).wf(),
    {
        self.state = DecoderState::Done;
    }

    /// Feeds the next message of the stream to the machine. The contract is
    /// the state machine's transition table.
    pub fn feed(&mut self, msg: &WireMessage) -> (r: Result<DecodeEvent, FlightError>)
        requires
            old(self).wf(),
            old(self).state is ExpectSchema || old(self).state is ExpectBatchOrEnd,
        ensures
            final(self).wf(),
            feed_spec(*old(self), *msg, *final(self), r),
    {
        match msg {
            WireMessage::Dictionary => Ok(DecodeEvent::Ignored),
            WireMessage::Schema { schema } => {
                match self.state {
                    DecoderState::ExpectSchema => {
                        self.schema = Some(schema.deep_clone());
                        self.state = DecoderState::ExpectBatchOrEnd;
                        Ok(DecodeEvent::GotSchema(schema.deep_clone()))
                    },
                    _ => {
                        self.state = DecoderState::Failed;
                        Err(
                            FlightError::ProtocolError(
                                "schema message repeated mid-stream".to_string(),
                            ),
                        )
                    },
                }
            },
            WireMessage::Batch { header, body } => {
                match self.state {
                    DecoderState::ExpectSchema => {
                        self.state = DecoderState::Failed;
                        Err(FlightError::ProtocolError("schema must be first".to_string()))
                    },
                    _ => {
                        let s = match &self.schema {
                            Some(s) => s,
                            None => {
                                proof {
                                    assert(false);
                                }
                                return Err(FlightError::Internal(String::new()));
                            },
                        };
                        match decode_batch_message(s, header, body) {
                            Ok(b) => Ok(DecodeEvent::GotBatch(b)),
                            Err(e) => {
                                self.state = DecoderState::Failed;
                                Err(e)
                            },
                        }
                    },
                }
            },
        }
    }
}

/// The transition table of the decoding state machine, relating the state
/// before a message, the message, the state after it, and what was yielded.
pub open spec fn feed_spec(
    pre: Decoder,
    msg: WireMessage,
    post: Decoder,
    r: Result<DecodeEvent, FlightError>,
) -> bool {
    match msg {
        WireMessage::Dictionary => r matches Ok(DecodeEvent::Ignored) && post == pre,
        WireMessage::Schema { schema } => {
            if pre.state is ExpectSchema {
                &&& r matches Ok(DecodeEvent::GotSchema(s2)) && s2.model() == schema.model()
                &&& post.state is ExpectBatchOrEnd
                &&& post.schema_model() == schema.model()
            } else {
                &&& r matches Err(e) && e is ProtocolError
                &&& post.state is Failed
            }
        },
        WireMessage::Batch { header, body } => {
            if pre.state is ExpectSchema {
                &&& r matches Err(e) && e is ProtocolError
                &&& post.state is Failed
            } else {
                match parse_batch(
                    pre.schema_model(),
                    header.row_count as nat,
                    lens_nat(header.col_lens@),
                    body@,
                ) {
                    Some(m) => r matches Ok(DecodeEvent::GotBatch(b)) && b.model() == m && post
                        == pre,
                    None => r matches Err(e) && e is ProtocolError && post.state is Failed,
                }
            }
        },
    }
}

/// Outcome of decoding a whole message sequence: the schema seen, every
/// batch decoded before any failure, and the failure if there was one.
/// Batches decoded before a failure remain available.
#[derive(Debug)]
pub struct DecodeOutcome {
    pub schema: Option<Schema>,
    pub batches: Vec<RecordBatch>,
    pub error: Option<FlightError>,
}

/// The outcome agrees with the model-level decoding of the stream.
pub open spec fn outcome_matches(o: DecodeOutcome, d: DecResult) -> bool {
    &&& match (o.schema, d.schema) {
        (Some(s), Some(m)) => s.model() == m,
        (None, None) => true,
        _ => false,
    }
    &&& batch_models(o.batches@) == d.batches
    &&& (o.error is Some <==> d.failed)
    &&& (d.failed ==> (o.error matches Some(e) && e is ProtocolError))
}

/// Runs the decoding state machine over a whole message sequence.
#[verifier::loop_isolation(false)]
pub fn decode_all(msgs: &Vec<WireMessage>) -> (r: DecodeOutcome)
    ensures
        outcome_matches(r, decode_stream(msg_models(msgs@))),
{
    let ghost mm = msg_models(msgs@);
    let mut dec = Decoder::new();
    let mut batches: Vec<RecordBatch> = Vec::new();
    let mut schema: Option<Schema> = None;
    let mut i: usize = 0;
    proof {
        assert(mm.skip(0) =~= mm);
    }
    while i < msgs.len()
        invariant
            i <= msgs@.len(),
            dec.wf(),
            dec.state is ExpectSchema || dec.state is ExpectBatchOrEnd,
            dec.state is ExpectSchema ==> schema is None && batches@.len() == 0 && decode_stream(
                mm,
            ) == decode_stream(mm.skip(i as int)),
            dec.state is ExpectBatchOrEnd ==> (schema matches Some(s) && s.model()
                == dec.schema_model()) && decode_stream(mm) == (DecResult {
                schema: Some(dec.schema_model()),
                batches: batch_models(batches@) + decode_batches(
                    dec.schema_model(),
                    mm.skip(i as int),
                ).batches,
                failed: decode_batches(dec.schema_model(), mm.skip(i as int)).failed,
            }),
        decreases msgs@.len() - i,
    {
        proof {
            assert(mm[i as int] == msg_model(msgs@[i as int]));
            assert(mm.skip(i as int)[0] == mm[i as int]);
            assert(mm.skip(i as int).drop_first() =~= mm.skip(i as int + 1));
        }
        let ghost pre = dec;
        let ghost pre_batches = batches@;
        match dec.feed(&msgs[i]) {
            Ok(ev) => {
                match ev {
                    DecodeEvent::GotSchema(s) => {
                        schema = Some(s);
                    },
                    DecodeEvent::GotBatch(b) => {
                        batches.push(b);
                        proof {
                            assert(batch_models(batches@) =~= batch_models(pre_batches) + seq![
                                batches@[batches@.len() - 1].model(),
                            ]);
                        }
                    },
                    DecodeEvent::Ignored => {},
                }
            },
            Err(e) => {
                proof {
                    if pre.state is ExpectSchema {
                        assert(mm[i as int] is BatchM);
                        assert(decode_stream(mm.skip(i as int)) == DecResult {
                            schema: None,
                            batches: Seq::<BatchModel>::empty(),
                            failed: true,
                        });
                        assert(batch_models(batches@) =~= Seq::<BatchModel>::empty());
                    } else {
                        let sm = pre.schema_model();
                        assert(decode_batches(sm, mm.skip(i as int)).failed);
                        assert(decode_batches(sm, mm.skip(i as int)).batches
                            =~= Seq::<BatchModel>::empty());
                        assert(batch_models(batches@) + Seq::<BatchModel>::empty() =~=
                        batch_models(batches@));
                    }
                }
                return DecodeOutcome { schema, batches, error: Some(e) };
            },
        }
        i = i + 1;
        proof {
            if dec.state is ExpectBatchOrEnd {
                match decode_batches(dec.schema_model(), mm.skip(i as int)) {
                    rest => {
                        if pre.state is ExpectSchema {
                            assert(batch_models(batches@) + rest.batches =~= rest.batches);
                        } else {
                            assert(batch_models(batches@) + rest.batches =~= batch_models(
                                pre_batches,
                            ) + (seq![batches@[batches@.len() - 1].model()] + rest.batches)
                                || batches@ == pre_batches);
                        }
                    },
                }
            }
            assert(dec.state is ExpectSchema ==> decode_stream(mm) == decode_stream(mm.skip(
                i as int,
            )));
        }
    }
    proof {
        assert(mm.skip(msgs@.len() as int) =~= Seq::<MsgModel>::empty());
        if dec.state is ExpectBatchOrEnd {
            assert(batch_models(batches@) + Seq::<BatchModel>::empty() =~= batch_models(
                batches@,
            ));
        }
    }
    dec.finish();
    DecodeOutcome { schema, batches, error: None }
}

} // verus!
