use flight_core::catalog::{Catalog, CatalogEntry, Descriptor, UNKNOWN_TOTAL};
use flight_core::data::{Column, Field, Schema, TypeTag};
use flight_core::decode::decode_all;
use flight_core::error::FlightError;
use flight_core::server::MyFlightServer;
use flight_core::source::{build_batches, CellValue, SourceEnd, SourceRun};
use flight_core::wire::WireMessage;

fn city_schema() -> Schema {
    Schema {
        fields: vec![
            Field { name: "city".to_string(), tag: TypeTag::Utf8, nullable: false },
            Field { name: "lat".to_string(), tag: TypeTag::Float64, nullable: false },
            Field { name: "lng".to_string(), tag: TypeTag::Float64, nullable: false },
        ],
    }
}

fn uk_cities_entry() -> CatalogEntry {
    CatalogEntry {
        descriptor: Descriptor::Path(vec!["uk_cities".to_string()]),
        schema: city_schema(),
        ticket: b"uk_cities".to_vec(),
        total_records: UNKNOWN_TOTAL,
        total_bytes: UNKNOWN_TOTAL,
        ordered: false,
    }
}

fn uk_cities_server() -> MyFlightServer {
    let mut catalog = Catalog::new();
    assert!(catalog.register(uk_cities_entry()));
    MyFlightServer::new(catalog)
}

fn city_rows(n: usize) -> Vec<Vec<CellValue>> {
    let mut rows = Vec::new();
    for i in 0..n {
        rows.push(vec![
            CellValue::Utf8(format!("city-{}", i).into_bytes()),
            CellValue::Float64((50.0 + i as f64 / 1000.0).to_bits()),
            CellValue::Float64((-1.0 - i as f64 / 1000.0).to_bits()),
        ]);
    }
    rows
}

#[test]
fn list_flights_returns_the_one_dataset() {
    let server = uk_cities_server();
    let infos = server.list_flights();
    assert_eq!(infos.len(), 1);
    let info = &infos[0];
    match &info.descriptor {
        Descriptor::Path(segs) => assert_eq!(segs, &vec!["uk_cities".to_string()]),
        _ => panic!("descriptor must be a path"),
    }
    assert_eq!(info.endpoints.len(), 1);
    assert_eq!(info.endpoints[0].ticket, b"uk_cities".to_vec());
    assert_eq!(info.total_records, UNKNOWN_TOTAL);
    assert_eq!(info.total_bytes, UNKNOWN_TOTAL);
    assert!(!info.ordered);
    assert_eq!(info.schema.fields.len(), 3);
    assert_eq!(info.schema.fields[0].name, "city");
}

#[test]
fn do_get_three_batches_of_2500_rows() {
    let server = uk_cities_server();
    let rows = city_rows(2500);
    let batches = build_batches(&city_schema(), &rows, 1024).unwrap();
    assert_eq!(batches.len(), 3);
    assert_eq!(batches[0].row_count, 1024);
    assert_eq!(batches[1].row_count, 1024);
    assert_eq!(batches[2].row_count, 452);
    assert_eq!(batches.iter().map(|b| b.row_count).sum::<usize>(), 2500);

    let run = SourceRun { batches, end: SourceEnd::Exhausted };
    let ticket = b"uk_cities".to_vec();
    let out = server.do_get(&ticket, &run).unwrap();
    assert!(out.error.is_none());
    assert_eq!(out.messages.len(), 4);
    assert!(matches!(out.messages[0], WireMessage::Schema { .. }));

    let dec = decode_all(&out.messages);
    assert!(dec.error.is_none());
    assert_eq!(dec.batches.len(), 3);
    assert_eq!(dec.batches[0].row_count, 1024);
    assert_eq!(dec.batches[1].row_count, 1024);
    assert_eq!(dec.batches[2].row_count, 452);
    match &dec.batches[2].columns[0] {
        Column::Utf8 { values, .. } => {
            assert_eq!(values[451], b"city-2499".to_vec());
            assert_eq!(values[0], b"city-2048".to_vec());
        }
        _ => panic!("column 0 must be text"),
    }
    match &dec.batches[0].columns[1] {
        Column::Float64 { bits, .. } => {
            assert_eq!(f64::from_bits(bits[7]), 50.0 + 7.0 / 1000.0);
        }
        _ => panic!("column 1 must be float"),
    }
}

#[test]
fn sentinel_totals_are_advisory_only() {
    // The dataset advertises the unknown sentinel for both totals, yet the
    // decoded stream terminates by its end-of-stream signal and yields all
    // 2500 rows: the totals play no part in decoding.
    let server = uk_cities_server();
    let infos = server.list_flights();
    assert_eq!(infos[0].total_records, -1);
    let rows = city_rows(2500);
    let batches = build_batches(&city_schema(), &rows, 1024).unwrap();
    let run = SourceRun { batches, end: SourceEnd::Exhausted };
    let out = server.do_get(&b"uk_cities".to_vec(), &run).unwrap();
    let dec = decode_all(&out.messages);
    assert!(dec.error.is_none());
    let total: usize = dec.batches.iter().map(|b| b.row_count).sum();
    assert_eq!(total, 2500);
}

#[test]
fn do_put_is_unimplemented_without_a_payload() {
    let server = uk_cities_server();
    assert!(matches!(server.do_put(), Err(FlightError::Unimplemented)));
}

#[test]
fn the_other_verbs_are_unimplemented() {
    let server = uk_cities_server();
    let d = Descriptor::Path(vec!["uk_cities".to_string()]);
    assert!(matches!(server.get_flight_info(&d), Err(FlightError::Unimplemented)));
    assert!(matches!(server.get_schema(&d), Err(FlightError::Unimplemented)));
    assert!(matches!(server.do_exchange(), Err(FlightError::Unimplemented)));
    assert!(matches!(server.do_action(), Err(FlightError::Unimplemented)));
    assert!(matches!(server.list_actions(), Err(FlightError::Unimplemented)));
    assert!(matches!(server.handshake(), Err(FlightError::Unimplemented)));
    assert!(matches!(server.poll_flight_info(&d), Err(FlightError::Unimplemented)));
}

#[test]
fn unknown_ticket_is_not_found_and_emits_nothing() {
    let server = uk_cities_server();
    let ticket = b"no_such_dataset".to_vec();
    assert!(matches!(server.resolve_do_get(&ticket), Err(FlightError::NotFound)));
    let run = SourceRun { batches: Vec::new(), end: SourceEnd::Exhausted };
    assert!(matches!(server.do_get(&ticket, &run), Err(FlightError::NotFound)));
}

#[test]
fn unknown_descriptor_is_not_found() {
    let server = uk_cities_server();
    let d = Descriptor::Path(vec!["nowhere".to_string()]);
    assert!(matches!(server.catalog.lookup(&d), Err(FlightError::NotFound)));
    let c = Descriptor::Cmd(b"uk_cities".to_vec());
    // A command descriptor is a different key form than a path.
    assert!(matches!(server.catalog.lookup(&c), Err(FlightError::NotFound)));
}

#[test]
fn lookup_finds_the_registered_descriptor() {
    let server = uk_cities_server();
    let d = Descriptor::Path(vec!["uk_cities".to_string()]);
    let info = server.catalog.lookup(&d).unwrap();
    assert_eq!(info.endpoints[0].ticket, b"uk_cities".to_vec());
}

#[test]
fn register_refuses_duplicate_descriptor_or_ticket() {
    let mut catalog = Catalog::new();
    assert!(catalog.register(uk_cities_entry()));
    assert!(!catalog.register(uk_cities_entry()));
    let mut other = uk_cities_entry();
    other.descriptor = Descriptor::Path(vec!["other".to_string()]);
    // same ticket as uk_cities
    assert!(!catalog.register(other));
    let mut fresh = uk_cities_entry();
    fresh.descriptor = Descriptor::Path(vec!["other".to_string()]);
    fresh.ticket = b"other".to_vec();
    assert!(catalog.register(fresh));
    assert_eq!(catalog.list().len(), 2);
}

#[test]
fn build_batches_rejects_rows_that_do_not_fit() {
    let schema = city_schema();
    let bad_type = vec![vec![
        CellValue::Float64(1.0f64.to_bits()),
        CellValue::Float64(1.0f64.to_bits()),
        CellValue::Float64(1.0f64.to_bits()),
    ]];
    assert!(matches!(
        build_batches(&schema, &bad_type, 1024),
        Err(FlightError::SourceError(_))
    ));
    let bad_null = vec![vec![
        CellValue::Null,
        CellValue::Float64(1.0f64.to_bits()),
        CellValue::Float64(1.0f64.to_bits()),
    ]];
    assert!(matches!(
        build_batches(&schema, &bad_null, 1024),
        Err(FlightError::SourceError(_))
    ));
    let bad_width = vec![vec![CellValue::Utf8(b"x".to_vec())]];
    assert!(matches!(
        build_batches(&schema, &bad_width, 1024),
        Err(FlightError::SourceError(_))
    ));
}

#[test]
fn build_batches_of_empty_input_is_empty() {
    let schema = city_schema();
    let rows: Vec<Vec<CellValue>> = Vec::new();
    let batches = build_batches(&schema, &rows, 1024).unwrap();
    assert_eq!(batches.len(), 0);
}

#[test]
fn build_batches_carries_nulls_through() {
    let schema = Schema {
        fields: vec![Field { name: "note".to_string(), tag: TypeTag::Utf8, nullable: true }],
    };
    let rows = vec![
        vec![CellValue::Utf8(b"present".to_vec())],
        vec![CellValue::Null],
    ];
    let batches = build_batches(&schema, &rows, 10).unwrap();
    assert_eq!(batches.len(), 1);
    match &batches[0].columns[0] {
        Column::Utf8 { values, valid } => {
            assert_eq!(valid.as_ref().unwrap(), &vec![true, false]);
            assert_eq!(values[0], b"present".to_vec());
        }
        _ => panic!("column must be text"),
    }
}

#[test]
fn command_descriptors_are_their_own_keys() {
    let mut catalog = Catalog::new();
    assert!(catalog.register(uk_cities_entry()));
    let mut cmd_entry = uk_cities_entry();
    cmd_entry.descriptor = Descriptor::Cmd(b"uk_cities".to_vec());
    cmd_entry.ticket = b"cmd-ticket".to_vec();
    // A command key and a path key with the same bytes do not collide.
    assert!(catalog.register(cmd_entry));
    let info = catalog.lookup(&Descriptor::Cmd(b"uk_cities".to_vec())).unwrap();
    assert_eq!(info.endpoints[0].ticket, b"cmd-ticket".to_vec());
}

#[test]
fn register_refuses_a_total_below_the_sentinel() {
    let mut catalog = Catalog::new();
    let mut entry = uk_cities_entry();
    entry.total_records = -2;
    assert!(!catalog.register(entry));
    assert_eq!(catalog.list().len(), 0);
}
