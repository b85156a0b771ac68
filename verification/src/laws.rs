use crate::catalog::{entries_wf, info_of, EntryModel};
use crate::data::{batch_wf, col_wf, BatchModel, CellsModel, ColModel, FieldModel, TypeTag};
use crate::wire::{
    batch_msg_of, batch_msgs_of, body_bytes, cells_bytes, col_bytes, decode_batches,
    decode_stream, encode_msgs, f64_cell_bytes, le4, le4_val, le8, le8_val, lens_of, opt_valid_bytes,
    parse_batch, parse_cells, parse_col, parse_cols, parse_f64_cells, parse_utf8_cells,
    parse_valid, utf8_cell_bytes, valid_bytes, BatchDec, DecResult, MsgModel,
};
use vstd::prelude::*;

verus! {

proof fn lemma_le4_roundtrip(v: u32)
    ensures
        le4_val(le4(v)) == v,
{
    let b = le4(v);
    assert(b[0] == (v & 0xff) as u8);
    assert(b[1] == ((v >> 8) & 0xff) as u8);
    assert(b[2] == ((v >> 16) & 0xff) as u8);
    assert(b[3] == ((v >> 24) & 0xff) as u8);
    assert(((((v & 0xff) as u8) as u32) | ((((v >> 8) & 0xff) as u8) as u32) << 8 | ((((v >> 16)
        & 0xff) as u8) as u32) << 16 | ((((v >> 24) & 0xff) as u8) as u32) << 24) == v)
        by (bit_vector);
}

proof fn lemma_le8_roundtrip(v: u64)
    ensures
        le8_val(le8(v)) == v,
{
    let b = le8(v);
    assert(b[0] == (v & 0xff) as u8);
    assert(b[1] == ((v >> 8) & 0xff) as u8);
    assert(b[2] == ((v >> 16) & 0xff) as u8);
    assert(b[3] == ((v >> 24) & 0xff) as u8);
    assert(b[4] == ((v >> 32) & 0xff) as u8);
    assert(b[5] == ((v >> 40) & 0xff) as u8);
    assert(b[6] == ((v >> 48) & 0xff) as u8);
    assert(b[7] == ((v >> 56) & 0xff) as u8);
    assert(((((v & 0xff) as u8) as u64) | ((((v >> 8) & 0xff) as u8) as u64) << 8 | ((((v >> 16)
        & 0xff) as u8) as u64) << 16 | ((((v >> 24) & 0xff) as u8) as u64) << 24 | ((((v >> 32)
        & 0xff) as u8) as u64) << 32 | ((((v >> 40) & 0xff) as u8) as u64) << 40 | ((((v >> 48)
        & 0xff) as u8) as u64) << 48 | ((((v >> 56) & 0xff) as u8) as u64) << 56) == v)
        by (bit_vector);
}

proof fn lemma_valid_roundtrip(v: Seq<bool>)
    ensures
        parse_valid(valid_bytes(v)) == Some(v),
{
    let b = valid_bytes(v);
    assert forall|i: int| 0 <= i < b.len() implies (#[trigger] b[i]) == 0 || b[i] == 1 by {}
    match parse_valid(b) {
        Some(w) => {
            assert(w =~= v);
        },
        None => {
            assert(false);
        },
    }
}

#[verifier::rlimit(100)]
#[verifier::spinoff_prover]
proof fn lemma_utf8_roundtrip(vals: Seq<Seq<u8>>)
    requires
        forall|i: int| 0 <= i < vals.len() ==> (#[trigger] vals[i]).len() < 0x1_0000_0000,
    ensures
        parse_utf8_cells(utf8_cell_bytes(vals), vals.len()) == Some(vals),
    decreases vals.len(),
{
    if vals.len() == 0 {
        assert(Seq::<Seq<u8>>::empty() =~= vals);
    } else {
        let b = utf8_cell_bytes(vals);
        let v0 = vals[0];
        let rest = utf8_cell_bytes(vals.drop_first());
        assert(b == le4(v0.len() as u32) + v0 + rest);
        assert(b.len() == 4 + v0.len() + rest.len());
        assert(b.take(4) =~= le4(v0.len() as u32)) by {
            assert(b == le4(v0.len() as u32) + v0 + rest);
        }
        lemma_le4_roundtrip(v0.len() as u32);
        let n = le4_val(b.take(4)) as int;
        assert(n == v0.len());
        assert(b.subrange(4, 4 + n) =~= v0) by {
            assert(b == le4(v0.len() as u32) + v0 + rest);
        }
        assert(b.skip(4 + n) =~= rest) by {
            assert(b == le4(v0.len() as u32) + v0 + rest);
        }
        assert forall|i: int| 0 <= i < vals.drop_first().len() implies (#[trigger] vals.drop_first()[
            i
        ]).len() < 0x1_0000_0000 by {
            assert(vals.drop_first()[i] == vals[i + 1]);
        }
        lemma_utf8_roundtrip(vals.drop_first());
        assert(parse_utf8_cells(b.skip(4 + n), (vals.len() - 1) as nat) == Some(
            vals.drop_first(),
        ));
        assert(seq![b.subrange(4, 4 + n)] + vals.drop_first() =~= vals);
    }
}

proof fn lemma_f64_len(bits: Seq<u64>)
    ensures
        f64_cell_bytes(bits).len() == 8 * bits.len(),
    decreases bits.len(),
{
    if bits.len() == 0 {
    } else {
        lemma_f64_len(bits.drop_first());
    }
}

proof fn lemma_f64_index(bits: Seq<u64>, i: int)
    requires
        0 <= i < bits.len(),
    ensures
        f64_cell_bytes(bits).subrange(8 * i, 8 * i + 8) == le8(bits[i]),
    decreases i,
{
    lemma_f64_len(bits);
    if i == 0 {
        assert(f64_cell_bytes(bits).subrange(0, 8) =~= le8(bits[0]));
    } else {
        lemma_f64_index(bits.drop_first(), i - 1);
        lemma_f64_len(bits.drop_first());
        assert(f64_cell_bytes(bits).subrange(8 * i, 8 * i + 8) =~= f64_cell_bytes(
            bits.drop_first(),
        ).subrange(8 * (i - 1), 8 * (i - 1) + 8));
        assert(bits.drop_first()[i - 1] == bits[i]);
    }
}

proof fn lemma_f64_roundtrip(bits: Seq<u64>)
    ensures
        parse_f64_cells(f64_cell_bytes(bits), bits.len()) == Some(bits),
{
    lemma_f64_len(bits);
    let b = f64_cell_bytes(bits);
    match parse_f64_cells(b, bits.len()) {
        Some(w) => {
            assert forall|i: int| 0 <= i < bits.len() implies w[i] == bits[i] by {
                lemma_f64_index(bits, i);
                lemma_le8_roundtrip(bits[i]);
            }
            assert(w =~= bits);
        },
        None => {
            assert(false);
        },
    }
}

/// Reading a column's slice of the body back yields exactly the column it
/// was built from.
pub proof fn lemma_col_roundtrip(f: FieldModel, c: ColModel, rows: nat)
    requires
        col_wf(f, c, rows),
    ensures
        parse_col(f, rows, col_bytes(c)) == Some(c),
{
    let b = col_bytes(c);
    let cb = cells_bytes(c.cells);
    match c.cells {
        CellsModel::Utf8(vals) => {
            lemma_utf8_roundtrip(vals);
            assert(parse_cells(f.tag, rows, cb) == Some(c.cells));
        },
        CellsModel::Float64(bits) => {
            lemma_f64_roundtrip(bits);
            assert(parse_cells(f.tag, rows, cb) == Some(c.cells));
        },
    }
    if f.nullable {
        match c.valid {
            Some(m) => {
                assert(b.take(rows as int) =~= valid_bytes(m));
                lemma_valid_roundtrip(m);
                assert(b.skip(rows as int) =~= cb);
                assert(ColModel { valid: Some(m), cells: c.cells } =~= c);
            },
            None => {
                assert(false);
            },
        }
    } else {
        assert(opt_valid_bytes(c.valid) =~= Seq::<u8>::empty());
        assert(b =~= cb);
        assert(ColModel { valid: None, cells: c.cells } =~= c);
    }
}

proof fn lemma_cols_roundtrip(s: Seq<FieldModel>, cols: Seq<ColModel>, rows: nat)
    requires
        cols.len() == s.len(),
        forall|i: int| 0 <= i < s.len() ==> col_wf(s[i], #[trigger] cols[i], rows),
    ensures
        parse_cols(s, rows, lens_of(cols), body_bytes(cols)) == Some(cols),
    decreases s.len(),
{
    if s.len() == 0 {
        assert(Seq::<ColModel>::empty() =~= cols);
    } else {
        let b = body_bytes(cols);
        let lens = lens_of(cols);
        let c0 = cols[0];
        assert(lens[0] == col_bytes(c0).len());
        assert(b.take(lens[0] as int) =~= col_bytes(c0));
        lemma_col_roundtrip(s[0], c0, rows);
        assert(b.skip(lens[0] as int) =~= body_bytes(cols.drop_first()));
        assert(lens.drop_first() =~= lens_of(cols.drop_first()));
        assert forall|i: int| 0 <= i < s.drop_first().len() implies col_wf(
            s.drop_first()[i],
            #[trigger] cols.drop_first()[i],
            rows,
        ) by {
            assert(cols.drop_first()[i] == cols[i + 1]);
            assert(s.drop_first()[i] == s[i + 1]);
        }
        lemma_cols_roundtrip(s.drop_first(), cols.drop_first(), rows);
        assert(seq![c0] + cols.drop_first() =~= cols);
    }
}

/// Decoding the batch message a well-formed batch encodes to yields
/// exactly that batch.
pub proof fn lemma_batch_roundtrip(s: Seq<FieldModel>, m: BatchModel)
    requires
        batch_wf(s, m),
    ensures
        parse_batch(s, m.rows, lens_of(m.cols), body_bytes(m.cols)) == Some(m),
{
    lemma_cols_roundtrip(s, m.cols, m.rows);
    assert(BatchModel { rows: m.rows, cols: m.cols } =~= m);
}

proof fn lemma_batches_roundtrip(s: Seq<FieldModel>, bs: Seq<BatchModel>)
    requires
        forall|i: int| 0 <= i < bs.len() ==> batch_wf(s, #[trigger] bs[i]),
    ensures
        decode_batches(s, batch_msgs_of(bs)) == (BatchDec { batches: bs, failed: false }),
    decreases bs.len(),
{
    let msgs = batch_msgs_of(bs);
    if bs.len() == 0 {
        assert(decode_batches(s, msgs) =~= BatchDec { batches: bs, failed: false });
    } else {
        assert(msgs[0] == batch_msg_of(bs[0]));
        lemma_batch_roundtrip(s, bs[0]);
        assert(msgs.drop_first() =~= batch_msgs_of(bs.drop_first()));
        assert forall|i: int| 0 <= i < bs.drop_first().len() implies batch_wf(
            s,
            #[trigger] bs.drop_first()[i],
        ) by {
            assert(bs.drop_first()[i] == bs[i + 1]);
        }
        lemma_batches_roundtrip(s, bs.drop_first());
        assert(seq![bs[0]] + bs.drop_first() =~= bs);
        assert(decode_batches(s, msgs) =~= BatchDec { batches: bs, failed: false });
    }
}

/// Round-trip law: encoding a schema and a finite sequence of well-formed
/// batches and then decoding the resulting message stream reproduces a
/// schema equal to the original and, in order, batches equal to the
/// originals, with no failure.
pub proof fn lemma_stream_roundtrip(s: Seq<FieldModel>, bs: Seq<BatchModel>)
    requires
        forall|i: int| 0 <= i < bs.len() ==> batch_wf(s, #[trigger] bs[i]),
    ensures
        decode_stream(encode_msgs(s, bs)) == (DecResult {
            schema: Some(s),
            batches: bs,
            failed: false,
        }),
{
    let msgs = encode_msgs(s, bs);
    assert(msgs[0] == MsgModel::SchemaM(s));
    assert(msgs.drop_first() =~= batch_msgs_of(bs));
    lemma_batches_roundtrip(s, bs);
    assert(decode_stream(msgs) =~= DecResult { schema: Some(s), batches: bs, failed: false });
}

/// Empty-dataset law: a source that produced zero batches still encodes to
/// exactly one schema message, and decoding that stream ends cleanly with
/// the schema and zero batches — not an error.
pub proof fn lemma_empty_dataset(s: Seq<FieldModel>)
    ensures
        encode_msgs(s, Seq::<BatchModel>::empty()).len() == 1,
        decode_stream(encode_msgs(s, Seq::<BatchModel>::empty())) == (DecResult {
            schema: Some(s),
            batches: Seq::<BatchModel>::empty(),
            failed: false,
        }),
{
    lemma_stream_roundtrip(s, Seq::<BatchModel>::empty());
}

/// Ordering law: a stream whose first message is a batch message fails
/// decoding at once, yielding no schema and no batches.
pub proof fn lemma_batch_first_fails(msgs: Seq<MsgModel>)
    requires
        msgs.len() > 0,
        msgs[0] is BatchM,
    ensures
        decode_stream(msgs) == (DecResult {
            schema: None,
            batches: Seq::<BatchModel>::empty(),
            failed: true,
        }),
{
}

/// End-to-end law: when the stream adapter ends a run cleanly, the message
/// sequence it hands the transport is exactly the encoding of the source's
/// batches, and decoding it reproduces the schema and every batch, in
/// order.
pub proof fn lemma_served_stream_decodes(
    s: Seq<FieldModel>,
    bs: Seq<BatchModel>,
    out: crate::stream::OutgoingStream,
)
    requires
        crate::stream::adapts(s, bs, false, out),
        out.error is None,
    ensures
        crate::wire::msg_models(out.messages@) == encode_msgs(s, bs),
        decode_stream(crate::wire::msg_models(out.messages@)) == (DecResult {
            schema: Some(s),
            batches: bs,
            failed: false,
        }),
{
    assert(out.messages@.len() - 1 == bs.len());
    assert(crate::wire::msg_models(out.messages@) =~= encode_msgs(s, bs)) by {
        assert forall|i: int|
            0 <= i < out.messages@.len() implies crate::wire::msg_models(out.messages@)[i]
            == encode_msgs(s, bs)[i] by {
            if i > 0 {
                assert(crate::wire::msg_model(out.messages@[1 + (i - 1)]) == batch_msg_of(
                    bs[i - 1],
                ));
                assert(encode_msgs(s, bs)[i] == batch_msgs_of(bs)[i - 1]);
            }
        }
    }
    assert forall|i: int| 0 <= i < bs.len() implies batch_wf(s, #[trigger] bs[i]) by {
        assert(crate::wire::msg_model(out.messages@[1 + i]) == batch_msg_of(bs[i]));
    }
    lemma_stream_roundtrip(s, bs);
}

/// Discovery law: in a well-formed catalog, exactly one listed record
/// carries a given dataset's descriptor; that record's endpoint carries
/// the dataset's ticket; and resolving that ticket reaches a dataset with
/// the same schema.
pub proof fn lemma_catalog_discovery(ms: Seq<EntryModel>, k: int)
    requires
        entries_wf(ms),
        0 <= k < ms.len(),
    ensures
        forall|j: int|
            0 <= j < ms.len() ==> ((info_of(#[trigger] ms[j]).desc == info_of(ms[k]).desc) <==> j
                == k),
        info_of(ms[k]).endpoints[0].ticket == ms[k].ticket,
        forall|j: int|
            0 <= j < ms.len() && (#[trigger] ms[j]).ticket == ms[k].ticket ==> ms[j].schema
                == ms[k].schema,
{
    assert forall|j: int|
        0 <= j < ms.len() implies ((info_of(#[trigger] ms[j]).desc == info_of(ms[k]).desc) <==> j
        == k) by {
        if j < k {
            assert(ms[j].desc != ms[k].desc);
        } else if k < j {
            assert(ms[k].desc != ms[j].desc);
        }
    }
    assert forall|j: int|
        0 <= j < ms.len() && (#[trigger] ms[j]).ticket == ms[k].ticket implies ms[j].schema
        == ms[k].schema by {
        if j < k {
            assert(ms[j].ticket != ms[k].ticket);
        } else if k < j {
            assert(ms[k].ticket != ms[j].ticket);
        }
    }
}

} // verus!
