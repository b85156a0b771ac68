use crate::data::{batch_models, batch_wf, BatchModel, FieldModel, Schema};
use crate::encode::StreamEncoder;
use crate::error::FlightError;
use crate::source::{SourceEnd, SourceRun};
use crate::wire::{batch_msg_of, msg_model, MsgModel, WireMessage};
use vstd::prelude::*;

verus! {

/// One outgoing stream, ready for the transport: the messages to send in
/// order, and the terminal error to end the stream with, if any. Messages
/// already in the sequence are never recalled by a later error.
#[derive(Debug)]
pub struct OutgoingStream {
    pub messages: Vec<WireMessage>,
    pub error: Option<FlightError>,
}

/// What the stream adapter guarantees for a schema, the batches a source
/// produced, and whether the source failed at its end: the schema message
/// first; then one batch message per batch of the longest well-formed
/// prefix, in order; then, as terminal state, a protocol error at the
/// first ill-formed batch, else the source's own failure, else a clean
/// end.
pub open spec fn adapts(
    s: Seq<FieldModel>,
    bs: Seq<BatchModel>,
    src_failed: bool,
    out: OutgoingStream,
) -> bool {
    let k = out.messages@.len() - 1;
    &&& out.messages@.len() >= 1
    &&& msg_model(out.messages@[0]) == MsgModel::SchemaM(s)
    &&& out.messages@.len() <= 1 + bs.len()
    &&& forall|i: int|
        0 <= i < k ==> batch_wf(s, bs[i]) && msg_model(#[trigger] out.messages@[1 + i])
            == batch_msg_of(bs[i])
    &&& if k < bs.len() {
        !batch_wf(s, bs[k]) && (out.error matches Some(e) && e is ProtocolError)
    } else {
        if src_failed {
            out.error matches Some(e) && e is SourceError
        } else {
            out.error is None
        }
    }
}

/// The stream adapter: drives the encoder over everything one opened batch
/// source produced and turns the result into the outgoing stream, mapping
/// every encoder or source failure to a terminal stream error.
#[verifier::loop_isolation(false)]
pub fn encode_run(schema: &Schema, run: &SourceRun) -> (out: OutgoingStream)
    ensures
        adapts(schema.model(), batch_models(run.batches@), run.end is Failed, out),
{
    let ghost bm = batch_models(run.batches@);
    let enc = StreamEncoder::new(schema.deep_clone());
    let mut messages: Vec<WireMessage> = Vec::new();
    messages.push(enc.schema_message());
    let mut i: usize = 0;
    while i < run.batches.len()
        invariant
            i <= run.batches@.len(),
            messages@.len() == 1 + i as int,
            msg_model(messages@[0]) == MsgModel::SchemaM(schema.model()),
            forall|j: int|
                0 <= j < i as int ==> batch_wf(schema.model(), bm[j]) && msg_model(
                    #[trigger] messages@[1 + j],
                ) == batch_msg_of(bm[j]),
        decreases run.batches@.len() - i,
    {
        proof {
            assert(bm[i as int] == run.batches@[i as int].model());
        }
        match enc.batch_message(&run.batches[i]) {
            Ok(m) => {
                messages.push(m);
            },
            Err(e) => {
                return OutgoingStream { messages, error: Some(e) };
            },
        }
        i = i + 1;
    }
    match &run.end {
        SourceEnd::Exhausted => OutgoingStream { messages, error: None },
        SourceEnd::Failed(why) => OutgoingStream {
            messages,
            error: Some(FlightError::SourceError(why.clone())),
        },
    }
}

} // verus!
