use flight_core::data::{Column, Field, RecordBatch, Schema, TypeTag};
use flight_core::decode::{decode_all, DecodeEvent, Decoder, DecoderState};
use flight_core::encode::encode_batch_message;
use flight_core::error::FlightError;
use flight_core::source::{SourceEnd, SourceRun};
use flight_core::stream::encode_run;
use flight_core::wire::WireMessage;

fn city_schema() -> Schema {
    Schema {
        fields: vec![
            Field { name: "city".to_string(), tag: TypeTag::Utf8, nullable: false },
            Field { name: "lat".to_string(), tag: TypeTag::Float64, nullable: false },
            Field { name: "lng".to_string(), tag: TypeTag::Float64, nullable: false },
        ],
    }
}

fn two_row_batch() -> RecordBatch {
    RecordBatch {
        row_count: 2,
        columns: vec![
            Column::Utf8 {
                values: vec![b"London".to_vec(), b"Leeds".to_vec()],
                valid: None,
            },
            Column::Float64 {
                bits: vec![51.5078f64.to_bits(), 53.8008f64.to_bits()],
                valid: None,
            },
            Column::Float64 {
                bits: vec![(-0.1277f64).to_bits(), (-1.5491f64).to_bits()],
                valid: None,
            },
        ],
    }
}

#[test]
fn round_trip_two_rows() {
    let schema = city_schema();
    let batch = two_row_batch();
    let msg = encode_batch_message(&schema, &batch).unwrap();
    let msgs = vec![
        WireMessage::Schema { schema: city_schema() },
        msg,
    ];
    let out = decode_all(&msgs);
    assert!(out.error.is_none());
    let got_schema = out.schema.expect("schema must be decoded");
    assert_eq!(got_schema.fields.len(), 3);
    assert_eq!(got_schema.fields[0].name, "city");
    assert_eq!(got_schema.fields[1].tag, TypeTag::Float64);
    assert_eq!(out.batches.len(), 1);
    let b = &out.batches[0];
    assert_eq!(b.row_count, 2);
    match &b.columns[0] {
        Column::Utf8 { values, valid } => {
            assert!(valid.is_none());
            assert_eq!(values[0], b"London".to_vec());
            assert_eq!(values[1], b"Leeds".to_vec());
        }
        _ => panic!("column 0 must be text"),
    }
    match &b.columns[1] {
        Column::Float64 { bits, .. } => {
            assert_eq!(f64::from_bits(bits[0]), 51.5078);
            assert_eq!(f64::from_bits(bits[1]), 53.8008);
        }
        _ => panic!("column 1 must be float"),
    }
}

#[test]
fn round_trip_nullable_column() {
    let schema = Schema {
        fields: vec![Field { name: "note".to_string(), tag: TypeTag::Utf8, nullable: true }],
    };
    let batch = RecordBatch {
        row_count: 3,
        columns: vec![Column::Utf8 {
            values: vec![b"a".to_vec(), Vec::new(), b"".to_vec()],
            valid: Some(vec![true, false, true]),
        }],
    };
    let msg = encode_batch_message(&schema, &batch).unwrap();
    let msgs = vec![WireMessage::Schema { schema }, msg];
    let out = decode_all(&msgs);
    assert!(out.error.is_none());
    assert_eq!(out.batches.len(), 1);
    match &out.batches[0].columns[0] {
        Column::Utf8 { values, valid } => {
            assert_eq!(valid.as_ref().unwrap(), &vec![true, false, true]);
            assert_eq!(values[0], b"a".to_vec());
            assert_eq!(values[2], b"".to_vec());
        }
        _ => panic!("column must be text"),
    }
}

#[test]
fn empty_dataset_yields_schema_then_done() {
    let schema = city_schema();
    let run = SourceRun { batches: Vec::new(), end: SourceEnd::Exhausted };
    let out = encode_run(&schema, &run);
    assert_eq!(out.messages.len(), 1);
    assert!(matches!(out.messages[0], WireMessage::Schema { .. }));
    assert!(out.error.is_none());
    let dec = decode_all(&out.messages);
    assert!(dec.error.is_none());
    assert!(dec.schema.is_some());
    assert_eq!(dec.batches.len(), 0);
}

#[test]
fn batch_before_schema_is_protocol_error() {
    let schema = city_schema();
    let batch = two_row_batch();
    let msg = encode_batch_message(&schema, &batch).unwrap();
    let msgs = vec![msg];
    let out = decode_all(&msgs);
    assert!(matches!(out.error, Some(FlightError::ProtocolError(_))));
    assert!(out.schema.is_none());
    assert_eq!(out.batches.len(), 0);
}

#[test]
fn decoder_feed_rejects_batch_first() {
    let schema = city_schema();
    let msg = encode_batch_message(&schema, &two_row_batch()).unwrap();
    let mut dec = Decoder::new();
    let r = dec.feed(&msg);
    assert!(matches!(r, Err(FlightError::ProtocolError(_))));
    assert!(matches!(dec.state, DecoderState::Failed));
}

#[test]
fn truncated_body_fails_but_keeps_earlier_batches() {
    let schema = city_schema();
    let good = encode_batch_message(&schema, &two_row_batch()).unwrap();
    let bad = match encode_batch_message(&schema, &two_row_batch()).unwrap() {
        WireMessage::Batch { header, mut body } => {
            body.pop();
            body.pop();
            body.pop();
            WireMessage::Batch { header, body }
        }
        _ => panic!("expected a batch message"),
    };
    let msgs = vec![WireMessage::Schema { schema: city_schema() }, good, bad];
    let out = decode_all(&msgs);
    assert!(matches!(out.error, Some(FlightError::ProtocolError(_))));
    assert_eq!(out.batches.len(), 1);
    assert_eq!(out.batches[0].row_count, 2);
}

#[test]
fn second_schema_mid_stream_is_protocol_error() {
    let msgs = vec![
        WireMessage::Schema { schema: city_schema() },
        WireMessage::Schema { schema: city_schema() },
    ];
    let out = decode_all(&msgs);
    assert!(matches!(out.error, Some(FlightError::ProtocolError(_))));
    assert!(out.schema.is_some());
    assert_eq!(out.batches.len(), 0);
}

#[test]
fn dictionary_messages_are_ignored() {
    let schema = city_schema();
    let msg = encode_batch_message(&schema, &two_row_batch()).unwrap();
    let msgs = vec![
        WireMessage::Dictionary,
        WireMessage::Schema { schema },
        WireMessage::Dictionary,
        msg,
    ];
    let out = decode_all(&msgs);
    assert!(out.error.is_none());
    assert!(out.schema.is_some());
    assert_eq!(out.batches.len(), 1);
}

#[test]
fn dictionary_does_not_stand_in_for_the_schema() {
    let mut dec = Decoder::new();
    let r = dec.feed(&WireMessage::Dictionary);
    assert!(matches!(r, Ok(DecodeEvent::Ignored)));
    assert!(matches!(dec.state, DecoderState::ExpectSchema));
}

#[test]
fn mismatched_batch_is_rejected_by_the_encoder() {
    let schema = city_schema();
    let wrong_width = RecordBatch {
        row_count: 1,
        columns: vec![Column::Utf8 { values: vec![b"x".to_vec()], valid: None }],
    };
    let r = encode_batch_message(&schema, &wrong_width);
    assert!(matches!(r, Err(FlightError::ProtocolError(_))));

    let wrong_type = RecordBatch {
        row_count: 1,
        columns: vec![
            Column::Float64 { bits: vec![0], valid: None },
            Column::Float64 { bits: vec![0], valid: None },
            Column::Float64 { bits: vec![0], valid: None },
        ],
    };
    let r = encode_batch_message(&schema, &wrong_type);
    assert!(matches!(r, Err(FlightError::ProtocolError(_))));
}

#[test]
fn encoder_stops_at_first_bad_batch_but_keeps_earlier_messages() {
    let schema = city_schema();
    let bad = RecordBatch { row_count: 1, columns: Vec::new() };
    let run = SourceRun {
        batches: vec![two_row_batch(), bad],
        end: SourceEnd::Exhausted,
    };
    let out = encode_run(&schema, &run);
    assert_eq!(out.messages.len(), 2);
    assert!(matches!(out.error, Some(FlightError::ProtocolError(_))));
}

#[test]
fn source_failure_becomes_terminal_source_error() {
    let schema = city_schema();
    let run = SourceRun {
        batches: vec![two_row_batch()],
        end: SourceEnd::Failed("disk vanished".to_string()),
    };
    let out = encode_run(&schema, &run);
    assert_eq!(out.messages.len(), 2);
    match out.error {
        Some(FlightError::SourceError(why)) => assert_eq!(why, "disk vanished"),
        other => panic!("expected a source error, got {:?}", other),
    }
}

#[test]
fn zero_row_batch_round_trips() {
    let schema = city_schema();
    let empty = RecordBatch {
        row_count: 0,
        columns: vec![
            Column::Utf8 { values: Vec::new(), valid: None },
            Column::Float64 { bits: Vec::new(), valid: None },
            Column::Float64 { bits: Vec::new(), valid: None },
        ],
    };
    let msg = encode_batch_message(&schema, &empty).unwrap();
    let msgs = vec![WireMessage::Schema { schema }, msg];
    let out = decode_all(&msgs);
    assert!(out.error.is_none());
    assert_eq!(out.batches.len(), 1);
    assert_eq!(out.batches[0].row_count, 0);
}

#[test]
fn empty_message_stream_decodes_to_nothing() {
    let msgs: Vec<WireMessage> = Vec::new();
    let out = decode_all(&msgs);
    assert!(out.error.is_none());
    assert!(out.schema.is_none());
    assert_eq!(out.batches.len(), 0);
}

#[test]
fn decoder_walks_schema_then_batches() {
    let schema = city_schema();
    let batch_msg = encode_batch_message(&schema, &two_row_batch()).unwrap();
    let mut dec = Decoder::new();
    match dec.feed(&WireMessage::Schema { schema }) {
        Ok(DecodeEvent::GotSchema(s)) => assert_eq!(s.fields.len(), 3),
        other => panic!("expected the schema event, got {:?}", other),
    }
    assert!(matches!(dec.state, DecoderState::ExpectBatchOrEnd));
    match dec.feed(&batch_msg) {
        Ok(DecodeEvent::GotBatch(b)) => assert_eq!(b.row_count, 2),
        other => panic!("expected a batch event, got {:?}", other),
    }
    match dec.feed(&WireMessage::Dictionary) {
        Ok(DecodeEvent::Ignored) => {}
        other => panic!("expected the message to be ignored, got {:?}", other),
    }
    assert!(matches!(dec.state, DecoderState::ExpectBatchOrEnd));
}
