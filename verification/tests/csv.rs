use rms::csv_import::{
    check_headers, csv_reader, finish_plan, header_index, parse_decimal_scaled, parse_timeline,
    prepare_plan, sanitize_segment, series_display_name, validate_csv_source_bounded,
    validate_record_size, CsvMapping, CsvScan, CsvTimeUnit, CsvTimelineKind, CsvTimelineMapping,
    MAX_CSV_FIELD_BYTES,
};
use rms::csv_rows::{
    chunk_rows, import_csv, parse_optional_scalar, read_rows, summarize, CsvRow,
};
use rms::import::ImportErrorCode;

#[test]
fn decimal_timestamp_scaling_is_exact() {
    assert_eq!(parse_decimal_scaled("1.25", 1_000_000_000), Some(1_250_000_000));
    assert_eq!(parse_decimal_scaled("-1.25", 1_000_000_000), Some(-1_250_000_000));
    assert_eq!(parse_decimal_scaled("1.0000000001", 1_000_000_000), None);
}

fn numbers(rows: &[Vec<String>]) -> Vec<Vec<Option<u64>>> {
    rows.iter()
        .map(|row| {
            row.iter()
                .map(|field| field.trim().parse::<f64>().ok().filter(|v| v.is_finite()).map(f64::to_bits))
                .collect()
        })
        .collect()
}

fn flags(rows: &[Vec<String>]) -> Vec<Vec<bool>> {
    numbers(rows).iter().map(|row| row.iter().map(Option::is_some).collect()).collect()
}

fn no_mapping() -> CsvMapping {
    CsvMapping {
        timeline: None,
        columns: Vec::new(),
        entity_path_prefix: None,
        prefix_fault: None,
    }
}

#[test]
fn unmapped_tables_use_their_row_numbers() {
    let table = csv_reader(b"speed,name,load\n1.5,a,2\n,b,3\n", "t.csv").expect("the table is read");
    assert_eq!(table.headers, vec!["speed", "name", "load"]);
    let draft = prepare_plan(&table, &flags(&table.rows), &no_mapping(), "t.csv")
        .expect("two columns are numeric");
    assert_eq!(draft.timeline_name, "row");
    assert_eq!(draft.timeline_kind, CsvTimelineKind::Sequence);
    assert_eq!(draft.fps, Some(1.0_f64.to_bits()));
    assert_eq!(draft.columns.len(), 2);
    assert_eq!(draft.columns[0].source_name, "speed");
    assert_eq!(draft.columns[1].source_name, "load");
    let warnings = finish_plan(&draft, &vec!["/csv/speed".to_owned(), "/csv/load".to_owned()])
        .expect("the paths differ");
    assert_eq!(
        warnings,
        vec![
            "row timeline defaults to 1 FPS".to_owned(),
            "Skipped non-numeric CSV column name".to_owned(),
        ]
    );
    let rows = read_rows(&table, &numbers(&table.rows), &draft).expect("all values are numbers");
    assert_eq!(rows.len(), 2);
    assert_eq!(rows[1].time, 1);
    assert_eq!(rows[1].values, vec![None, Some(3.0_f64.to_bits())]);
    let chunks = chunk_rows(&rows, draft.columns.len());
    assert_eq!(chunks.len(), 2);
    assert_eq!(chunks[0].column, 0);
    assert_eq!(chunks[0].samples, vec![(0, 1.5_f64.to_bits())]);
    assert_eq!(chunks[1].samples, vec![(0, 2.0_f64.to_bits()), (1, 3.0_f64.to_bits())]);
    let summary = summarize(&draft, warnings);
    assert_eq!(summary.default_timeline, "row");
    assert_eq!(summary.topics, vec!["speed".to_owned(), "load".to_owned()]);
    assert_eq!(summary.fps_hints.get("row").map(|f| f.bits), Some(1.0_f64.to_bits()));
}

#[test]
fn mapped_timelines_are_scaled() {
    let table = csv_reader(b"t,v\n0.5,1\n1.5,2\n", "d.csv").unwrap();
    let mapping = CsvMapping {
        timeline: Some(CsvTimelineMapping {
            column: "t".to_owned(),
            name: "elapsed".to_owned(),
            name_fault: None,
            kind: CsvTimelineKind::Duration,
            unit: CsvTimeUnit::S,
            fps: None,
        }),
        columns: Vec::new(),
        entity_path_prefix: None,
        prefix_fault: None,
    };
    let draft = prepare_plan(&table, &flags(&table.rows), &mapping, "d.csv").unwrap();
    assert_eq!(draft.timeline_column, Some(0));
    let rows = read_rows(&table, &numbers(&table.rows), &draft).unwrap();
    assert_eq!(rows[0].time, 500_000_000);
    assert_eq!(rows[1].time, 1_500_000_000);
    assert_eq!(draft.columns.len(), 1);
}

#[test]
fn ragged_tables_are_faulty() {
    let table = csv_reader(b"a,b\n1,2\n3\n", "r.csv").unwrap();
    assert!(table.fault.is_some());
    let error = prepare_plan(&table, &flags(&table.rows), &no_mapping(), "r.csv").unwrap_err();
    assert_eq!(error.code(), ImportErrorCode::ValidationFailed);
    assert_eq!(
        error.user_reason(),
        "The CSV is not valid UTF-8 tabular data with a consistent row shape."
    );
}

#[test]
fn duplicate_headers_are_refused() {
    assert!(check_headers(&vec!["a".to_owned(), "b".to_owned()]).is_ok());
    assert!(check_headers(&vec!["a".to_owned(), "a".to_owned()]).is_err());
    assert_eq!(header_index(&vec!["a".to_owned(), "b".to_owned()], "b").unwrap(), 1);
    assert!(header_index(&vec!["a".to_owned()], "z").is_err());
}

#[test]
fn entity_paths_are_unique() {
    let table = csv_reader(b"a,b\n1,2\n", "p.csv").unwrap();
    let draft = prepare_plan(&table, &flags(&table.rows), &no_mapping(), "p.csv").unwrap();
    let error =
        finish_plan(&draft, &vec!["/csv/a".to_owned(), "/csv/a".to_owned()]).unwrap_err();
    assert_eq!(error.code(), ImportErrorCode::InvalidRequest);
    assert_eq!(error.internal_detail(), "Duplicate mapped CSV entity path: /csv/a");
}

#[test]
fn long_fields_are_found_before_parsing() {
    let start = CsvScan::new();
    let inside = validate_csv_source_bounded(start, b"a,b\n1,2").expect("the fields are short");
    assert_eq!(inside.record_bytes, 3);
    assert_eq!(inside.field_bytes, 1);
    let long = vec![b'x'; MAX_CSV_FIELD_BYTES + 1];
    let error = validate_csv_source_bounded(start, &long).unwrap_err();
    assert_eq!(error.code(), ImportErrorCode::ResourceLimitExceeded);
    assert!(validate_record_size(&vec!["x".repeat(MAX_CSV_FIELD_BYTES + 1)]).is_err());
}

#[test]
fn scanning_in_pieces_is_scanning_the_whole() {
    let whole = validate_csv_source_bounded(CsvScan::new(), b"\"a,\"\"b\",c\n1").unwrap();
    let first = validate_csv_source_bounded(CsvScan::new(), b"\"a,\"").unwrap();
    let both = validate_csv_source_bounded(first, b"\"b\",c\n1").unwrap();
    assert_eq!(whole, both);
}

#[test]
fn timelines_are_read_by_kind() {
    assert_eq!(parse_timeline(" 42 ", CsvTimelineKind::Sequence, CsvTimeUnit::Ns).unwrap(), 42);
    assert_eq!(
        parse_timeline("1.5", CsvTimelineKind::Timestamp, CsvTimeUnit::Ms).unwrap(),
        1_500_000
    );
    let error = parse_timeline("x", CsvTimelineKind::Duration, CsvTimeUnit::S).unwrap_err();
    assert!(error.internal_detail().contains("\"x\""));
}

#[test]
fn scalars_are_finite_or_blank() {
    assert_eq!(parse_optional_scalar("  ", None).unwrap(), None);
    assert_eq!(parse_optional_scalar("2", Some(7)).unwrap(), Some(7));
    let error = parse_optional_scalar(" x ", None).unwrap_err();
    assert_eq!(error.internal_detail(), "Failed to parse CSV scalar \"x\"");
}

#[test]
fn segments_hold_word_characters() {
    assert_eq!(sanitize_segment("Speed (m/s)"), "Speed__m_s_");
    assert_eq!(sanitize_segment(""), "column");
    assert_eq!(sanitize_segment("속도"), "속도");
}

#[test]
fn units_are_shown_with_their_series() {
    let table = csv_reader(b"v\n1\n", "u.csv").unwrap();
    let draft = prepare_plan(&table, &flags(&table.rows), &no_mapping(), "u.csv").unwrap();
    assert_eq!(series_display_name(&draft.columns[0]), "v");
}

#[test]
fn batches_split_samples() {
    let rows: Vec<CsvRow> =
        (0..5_000).map(|i| CsvRow { time: i, values: vec![Some(i as u64)] }).collect();
    let chunks = chunk_rows(&rows, 1);
    assert_eq!(chunks.len(), 2);
    assert_eq!(chunks[0].samples.len(), 4_096);
    assert_eq!(chunks[1].samples.len(), 904);
    assert_eq!(chunks[1].samples[0], (4_096, 4_096));
}

#[test]
fn imported_tables_become_batches_of_samples() {
    let table = csv_reader(b"speed,name,load\n1.5,a,2\n,b,3\n", "t.csv").expect("the table is read");
    let draft = prepare_plan(&table, &flags(&table.rows), &no_mapping(), "t.csv")
        .expect("two columns are numeric");
    let paths = vec!["/csv/speed".to_owned(), "/csv/load".to_owned()];
    let imported = import_csv(&table, &numbers(&table.rows), &draft, &paths)
        .expect("the table is imported");
    assert_eq!(imported.chunks.len(), 2);
    assert_eq!(imported.chunks[0].samples, vec![(0, 1.5_f64.to_bits())]);
    assert_eq!(
        imported.chunks[1].samples,
        vec![(0, 2.0_f64.to_bits()), (1, 3.0_f64.to_bits())]
    );
    assert_eq!(imported.summary.default_timeline, "row");
    assert_eq!(imported.summary.topics, vec!["speed".to_owned(), "load".to_owned()]);
    assert_eq!(imported.summary.warnings.len(), 2);
    let same = vec!["/csv/one".to_owned(), "/csv/one".to_owned()];
    assert_eq!(
        import_csv(&table, &numbers(&table.rows), &draft, &same).unwrap_err().internal_detail(),
        "Duplicate mapped CSV entity path: /csv/one"
    );
}
