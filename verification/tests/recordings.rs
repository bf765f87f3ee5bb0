use rms::catalog::Marker;
use rms::conversion::{
    run_import, ConversionHints, TimelineMeasure, ValidatedRequest, WrittenRecording,
};
use rms::hashing::{hex_sha256, FileDigest};
use rms::import::{EntityVisualization, ImportErrorCode, TimelineKind};
use rms::rrd_manifest::{
    expected_chunk_metadata, validate_arrow_transport, validate_decoded_chunk,
    validate_decoded_chunk_metadata, validate_manifest_resources, validate_raw_manifest_row_count,
    validate_rrd_chunk_span_set, ChunkTransport, DecodedChunk, DecodedTimeline, ManifestChunk,
    ManifestColumn, TemporalRange, TemporalTimeline, TimeRange, MAX_RRD_CHUNKS,
    MAX_RRD_CHUNK_COMPRESSED_BYTES, MAX_RRD_CHUNK_UNCOMPRESSED_BYTES,
    MAX_RRD_TOTAL_COMPRESSED_BYTES, MAX_RRD_TOTAL_UNCOMPRESSED_BYTES,
};
use rms::rrd_verify::{
    archetype_visualization, check_size, inspect_rrd_entity_descriptors, inspect_rrd_entity_paths,
    recording_entity_descriptors, verify_rrd, visualization_priority, ComponentColumn, RrdFile,
    RrdPayloads, RrdStore,
};
use rms::rrd_wire::{
    footer_position, is_within_ratio, preflight_rrd_footer_wire, read_proto_varint,
    validate_footer_pointer, MAX_RRD_FOOTER_DECODE_BUDGET_BYTES, MAX_RRD_MANIFESTS,
    MAX_RRD_MANIFEST_ARROW_BYTES,
};
use rms::table::Table;

#[test]
fn visualization_categories_follow_verified_rerun_archetypes() {
    assert_eq!(archetype_visualization("GridMap"), Some(EntityVisualization::Spatial3d));
    assert_eq!(archetype_visualization("Transform3D"), Some(EntityVisualization::Transform3d));
    assert_eq!(archetype_visualization("Points3D"), Some(EntityVisualization::Spatial3d));
    assert_eq!(archetype_visualization("VoxelGridMap"), Some(EntityVisualization::Spatial3d));
    assert_eq!(archetype_visualization("Ellipses2D"), Some(EntityVisualization::Spatial2d));
    assert_eq!(archetype_visualization("EncodedImage"), Some(EntityVisualization::Camera));
    assert_eq!(archetype_visualization("GeoPoints"), Some(EntityVisualization::GeoMap));
    assert_eq!(
        archetype_visualization("CoordinateFrame"),
        None,
        "frame metadata without drawable geometry must not create an empty spatial view"
    );
    assert_eq!(
        archetype_visualization("sensor_msgs.msg.LaserScan"),
        None,
        "raw ROS payloads must not be presented as decoded spatial geometry"
    );
}

fn push_varint(bytes: &mut Vec<u8>, mut value: u64) {
    loop {
        let mut byte = (value & 0x7f) as u8;
        value >>= 7;
        if value != 0 {
            byte |= 0x80;
        }
        bytes.push(byte);
        if value == 0 {
            return;
        }
    }
}

fn push_bytes_field(bytes: &mut Vec<u8>, field: u8, value: &[u8]) {
    bytes.push((field << 3) | 2);
    push_varint(bytes, value.len() as u64);
    bytes.extend_from_slice(value);
}

fn manifest_wire(uncompressed_size: u64) -> Vec<u8> {
    let mut schema = Vec::new();
    push_bytes_field(&mut schema, 1, &[1]);

    let mut dataframe = vec![0x08, 1];
    push_bytes_field(&mut dataframe, 2, &[0]);
    dataframe.extend_from_slice(&[0x18, 2, 0x20]);
    push_varint(&mut dataframe, uncompressed_size);

    let mut manifest = Vec::new();
    push_bytes_field(&mut manifest, 1, &[0x08, 1]);
    push_bytes_field(&mut manifest, 2, &schema);
    push_bytes_field(&mut manifest, 3, &[0; 32]);
    push_bytes_field(&mut manifest, 4, &dataframe);
    manifest
}

#[test]
fn footer_manifest_count_is_bounded_before_prost_decode() {
    let manifest = manifest_wire(1);
    let mut footer = Vec::new();
    for _ in 0..=MAX_RRD_MANIFESTS {
        push_bytes_field(&mut footer, 1, &manifest);
    }
    let error = preflight_rrd_footer_wire(&footer, "manifest-bomb.rrd")
        .expect_err("manifest bomb must fail before prost allocation");
    assert_eq!(error.code(), ImportErrorCode::ResourceLimitExceeded);
}

#[test]
fn footer_manifest_decompression_size_is_bounded_before_resize() {
    let manifest = manifest_wire(u64::MAX);
    let mut footer = Vec::new();
    push_bytes_field(&mut footer, 1, &manifest);
    let error = preflight_rrd_footer_wire(&footer, "manifest-resize-bomb.rrd")
        .expect_err("manifest resize bomb must fail before decompression");
    assert_eq!(error.code(), ImportErrorCode::ResourceLimitExceeded);
}

#[test]
fn footer_manifest_aggregate_decode_budget_is_bounded_before_decode() {
    let manifest = manifest_wire(MAX_RRD_MANIFEST_ARROW_BYTES);
    let mut footer = Vec::new();
    push_bytes_field(&mut footer, 1, &manifest);
    push_bytes_field(&mut footer, 1, &manifest);
    let error = preflight_rrd_footer_wire(&footer, "manifest-aggregate-bomb.rrd")
        .expect_err("aggregate manifest decode budget must be checked before decoding");
    assert_eq!(error.code(), ImportErrorCode::ResourceLimitExceeded);
}

#[test]
fn raw_manifest_rows_are_bounded_before_index_expansion() {
    validate_raw_manifest_row_count(&[MAX_RRD_CHUNKS], "bounded.rrd")
        .expect("the exact manifest row limit is accepted");
    let error = validate_raw_manifest_row_count(&[MAX_RRD_CHUNKS, 1], "manifest-row-bomb.rrd")
        .expect_err("manifest rows beyond the service budget must be rejected");
    assert_eq!(error.code(), ImportErrorCode::ResourceLimitExceeded);
}

#[test]
fn duplicate_chunk_spans_are_rejected_before_payload_reads() {
    let mut spans = vec![(128, 256), (128, 256)];
    let error = validate_rrd_chunk_span_set(&mut spans, "duplicate-span.rrd")
        .expect_err("duplicate referenced payload spans must be rejected");
    assert_eq!(error.code(), ImportErrorCode::OutputValidationFailed);
}

#[test]
fn chunk_spans_are_put_in_order() {
    let mut touching = vec![(256, 300), (128, 256)];
    validate_rrd_chunk_span_set(&mut touching, "touching.rrd").expect("touching spans lie apart");
    assert_eq!(touching, vec![(128, 256), (256, 300)]);
    let mut overlapping = vec![(250, 300), (128, 256)];
    let error = validate_rrd_chunk_span_set(&mut overlapping, "overlap.rrd").unwrap_err();
    assert_eq!(
        error.internal_detail(),
        "RRD chunk spans overlap: (128, 256) and (250, 300)\nFile path: overlap.rrd"
    );
    assert_eq!(overlapping, vec![(128, 256), (250, 300)]);
}

fn series_column() -> ManifestColumn {
    ManifestColumn {
        name: "series:SeriesLines:names:has_static_data".to_owned(),
        component: Some("SeriesLines:names".to_owned()),
        index: None,
        data_type: "Boolean".to_owned(),
        booleans: Some(vec![true, true]),
        kind: None,
        times: Vec::new(),
        time_fault: String::new(),
        valid: vec![true, true],
    }
}

fn static_chunk(id: &str) -> ManifestChunk {
    ManifestChunk {
        id: id.to_owned(),
        entity_path: "/series".to_owned(),
        is_static: true,
        num_rows: 1,
        offset: 0,
        size: 1,
        uncompressed: 1,
    }
}

#[test]
fn repeated_static_rows_are_verified_from_raw_manifest() {
    let chunks = vec![static_chunk("first"), static_chunk("second")];
    let expected = expected_chunk_metadata(
        &chunks,
        &vec![series_column()],
        &Vec::new(),
        "repeated-static-manifest.rrd",
    )
    .expect("the manifest is consistent");
    assert_eq!(expected.len(), chunks.len());
    for chunk in &chunks {
        let decoded = DecodedChunk {
            id: chunk.id.clone(),
            entity_path: "/series".to_owned(),
            is_static: true,
            num_rows: 1,
            components: vec!["SeriesLines:names".to_owned()],
            timelines: Vec::new(),
        };
        validate_decoded_chunk_metadata(&decoded, &expected, "repeated-static-manifest.rrd")
            .expect("the chunk is as the manifest promises");
    }
}

#[test]
fn empty_blueprint_chunk_is_not_mistaken_for_missing_metadata() {
    let chunks = vec![ManifestChunk {
        id: "empty".to_owned(),
        entity_path: "/empty-blueprint".to_owned(),
        is_static: true,
        num_rows: 0,
        offset: 0,
        size: 1,
        uncompressed: 1,
    }];
    let expected = expected_chunk_metadata(
        &chunks,
        &Vec::new(),
        &Vec::new(),
        "empty-blueprint-manifest.rrd",
    )
    .expect("the manifest is consistent");
    let decoded = DecodedChunk {
        id: "empty".to_owned(),
        entity_path: "/empty-blueprint".to_owned(),
        is_static: true,
        num_rows: 0,
        components: Vec::new(),
        timelines: Vec::new(),
    };
    validate_decoded_chunk_metadata(&decoded, &expected, "empty-blueprint-manifest.rrd")
        .expect("an empty chunk is no missing chunk");
}

#[test]
fn rrd_decode_budget_is_service_bounded() {
    assert_eq!(MAX_RRD_CHUNKS, 65_536);
    assert_eq!(MAX_RRD_CHUNK_COMPRESSED_BYTES, 64 * 1024 * 1024);
    assert_eq!(MAX_RRD_CHUNK_UNCOMPRESSED_BYTES, 64 * 1024 * 1024);
    assert_eq!(MAX_RRD_TOTAL_COMPRESSED_BYTES, 2 * 1024 * 1024 * 1024);
    assert_eq!(MAX_RRD_TOTAL_UNCOMPRESSED_BYTES, 2 * 1024 * 1024 * 1024);
    assert_eq!(MAX_RRD_FOOTER_DECODE_BUDGET_BYTES, 128 * 1024 * 1024);
}

#[test]
fn small_footers_pass_the_preflight() {
    let mut footer = Vec::new();
    push_bytes_field(&mut footer, 1, &manifest_wire(1));
    preflight_rrd_footer_wire(&footer, "small.rrd").expect("one small manifest is accepted");
}

#[test]
fn truncated_footers_are_corrupt() {
    let mut footer = Vec::new();
    push_bytes_field(&mut footer, 1, &manifest_wire(1));
    footer.pop();
    let error = preflight_rrd_footer_wire(&footer, "cut.rrd").expect_err("the footer is cut off");
    assert_eq!(error.code(), ImportErrorCode::OutputValidationFailed);
    assert!(error.internal_detail().ends_with("\nFile path: cut.rrd"));
}

#[test]
fn varints_are_read_little_endian() {
    assert_eq!(read_proto_varint(&[0xac, 0x02, 0xff], 0, "x").unwrap(), (300, 2));
    assert_eq!(read_proto_varint(&[7], 0, "x").unwrap(), (7, 1));
    assert!(read_proto_varint(&[0x80], 0, "x").is_err());
}

#[test]
fn decoded_sizes_are_held_to_their_ratio() {
    assert!(is_within_ratio(1, 1));
    assert!(!is_within_ratio(u64::MAX, 1));
}

#[test]
fn footers_lie_at_the_end_of_their_file() {
    assert_eq!(footer_position(1_000, 100, "x").unwrap(), 900);
    assert!(footer_position(10, 100, "x").is_err());
    let error = validate_footer_pointer(&Vec::new(), 1_000, 12, 32, "x")
        .expect_err("a recording without a footer is refused");
    assert_eq!(error.code(), ImportErrorCode::OutputValidationFailed);
}

fn chunk_at(offset: u64, size: u64, uncompressed: u64) -> ManifestChunk {
    ManifestChunk {
        id: format!("chunk-{offset}"),
        entity_path: "/robot".to_owned(),
        is_static: false,
        num_rows: 1,
        offset,
        size,
        uncompressed,
    }
}

#[test]
fn accepted_chunks_are_disjoint_and_bounded() {
    let apart = vec![vec![chunk_at(100, 50, 60), chunk_at(150, 50, 60)]];
    validate_manifest_resources(&apart, 1_000, 12, "apart.rrd").expect("the chunks are disjoint");
    let overlapping = vec![vec![chunk_at(100, 50, 60)], vec![chunk_at(149, 50, 60)]];
    let error = validate_manifest_resources(&overlapping, 1_000, 12, "overlap.rrd").unwrap_err();
    assert_eq!(error.code(), ImportErrorCode::OutputValidationFailed);
    assert!(error.internal_detail().contains("overlap"));
    let beyond = vec![vec![chunk_at(990, 50, 60)]];
    assert!(validate_manifest_resources(&beyond, 1_000, 12, "beyond.rrd").is_err());
    let large = vec![vec![chunk_at(100, 50, MAX_RRD_CHUNK_UNCOMPRESSED_BYTES + 1)]];
    assert_eq!(
        validate_manifest_resources(&large, 1_000, 12, "large.rrd").unwrap_err().code(),
        ImportErrorCode::ResourceLimitExceeded
    );
}

#[test]
fn transported_chunks_match_their_manifest() {
    let good = ChunkTransport {
        uncompressed_size: 60,
        payload_size: 50,
        same_store: true,
        same_chunk: true,
    };
    validate_arrow_transport(&good, 60, "store", "chunk", "t.rrd").expect("the chunk is as listed");
    let other_size = ChunkTransport { uncompressed_size: 61, payload_size: 50, same_store: true, same_chunk: true };
    assert!(validate_arrow_transport(&other_size, 60, "store", "chunk", "t.rrd").is_err());
    let other_store = ChunkTransport { uncompressed_size: 60, payload_size: 50, same_store: false, same_chunk: true };
    assert!(validate_arrow_transport(&other_store, 60, "store", "chunk", "t.rrd").is_err());
}

#[test]
fn chunks_that_no_manifest_lists_are_refused() {
    let decoded = DecodedChunk {
        id: "stranger".to_owned(),
        entity_path: "/series".to_owned(),
        is_static: true,
        num_rows: 1,
        components: vec!["SeriesLines:names".to_owned()],
        timelines: Vec::new(),
    };
    let chunks = vec![static_chunk("first")];
    let expected =
        expected_chunk_metadata(&chunks, &Vec::new(), &Vec::new(), "m.rrd").unwrap_or_else(|_| Table::new());
    assert!(validate_decoded_chunk(&decoded, &chunks, &expected, "m.rrd").is_err());
}

fn recording_store() -> RrdStore {
    RrdStore {
        is_recording: true,
        chunks: vec![chunk_at(100, 50, 60)],
        columns: vec![time_column("tick:start", 2), time_column("tick:end", 9)],
        temporal_entities: vec!["/robot".to_owned()],
        temporal: vec![TemporalTimeline {
            entity_path: "/robot".to_owned(),
            timeline: "tick".to_owned(),
            kind: TimelineKind::Sequence,
            ranges: vec![TemporalRange {
                component: "Points3D:positions".to_owned(),
                chunk_id: "chunk-100".to_owned(),
                start: 2,
                end: 9,
            }],
        }],
        static_entities: vec!["/static".to_owned()],
        components: vec![
            ComponentColumn {
                entity_path: "/robot".to_owned(),
                archetype: Some("Points3D".to_owned()),
            },
            ComponentColumn { entity_path: "/static".to_owned(), archetype: None },
        ],
    }
}

fn recording_file() -> RrdFile {
    let mut footer_payload = Vec::new();
    push_bytes_field(&mut footer_payload, 1, &manifest_wire(1));
    RrdFile {
        size: 1_000,
        header_size: 12,
        footer_size: 32,
        footers: vec![(900, footer_payload.len() as u64)],
        footer_payload,
        row_counts: vec![1],
        stores: vec![recording_store()],
        payloads: vec![RrdPayloads {
            store_id: "store".to_owned(),
            transports: vec![ChunkTransport {
                uncompressed_size: 60,
                payload_size: 50,
                same_store: true,
                same_chunk: true,
            }],
            decoded: vec![decoded_robot(2)],
        }],
    }
}

#[test]
fn files_that_break_a_promise_are_refused() {
    let refusal = |file: &RrdFile| {
        let error = verify_rrd(file, &None, "r.rrd").unwrap_err();
        (error.code(), error.internal_detail().to_owned())
    };
    let mut empty = recording_file();
    empty.size = 12;
    let detail = "RRD is only 12 bytes\nFile path: r.rrd".to_owned();
    assert_eq!(refusal(&empty), (ImportErrorCode::OutputValidationFailed, detail));
    let mut unplaced = recording_file();
    unplaced.footers = vec![(960, 30)];
    assert!(refusal(&unplaced).1.contains("outside the payload region"));
    let mut unlisted = recording_file();
    unlisted.footer_payload.clear();
    assert!(refusal(&unlisted).1.contains("RRD footer contains no manifests"));
    let mut blueprint = recording_file();
    blueprint.stores[0].is_recording = false;
    assert!(refusal(&blueprint).1.contains("RRD footer has 0 recording manifests"));
    let mut beyond = recording_file();
    beyond.stores[0].chunks[0].offset = 990;
    assert!(refusal(&beyond).1.contains("outside file bounds"));
    let mut other_store = recording_file();
    other_store.payloads[0].transports[0].same_store = false;
    assert!(refusal(&other_store).1.contains("identity disagrees with manifest store=store"));
    let mut other_time = recording_file();
    other_time.payloads[0].decoded = vec![decoded_robot(3)];
    assert_eq!(refusal(&other_time).0, ImportErrorCode::OutputValidationFailed);
}

#[test]
fn inspected_recordings_list_their_entities() {
    let paths = inspect_rrd_entity_paths(&recording_file(), "r.rrd").expect("the file is verified");
    assert_eq!(paths, vec!["/robot".to_owned(), "/static".to_owned()]);
    let entities =
        inspect_rrd_entity_descriptors(&recording_file(), "r.rrd").expect("the file is verified");
    assert_eq!(entities.len(), 2);
    assert_eq!(entities[0].path, "/robot");
    assert_eq!(entities[0].visualization, EntityVisualization::Spatial3d);
    let mut broken = recording_file();
    broken.payloads[0].decoded = vec![decoded_robot(3)];
    assert!(inspect_rrd_entity_paths(&broken, "r.rrd").is_err());
    assert!(inspect_rrd_entity_descriptors(&broken, "r.rrd").is_err());
}

#[test]
fn verified_recordings_offer_their_timelines_and_entities() {
    let verified = verify_rrd(&recording_file(), &Some("tick".to_owned()), "r.rrd")
        .expect("the recording has temporal data");
    assert_eq!(verified.default_timeline, "tick");
    assert_eq!(verified.timelines.len(), 1);
    assert_eq!(verified.timelines[0].name, "tick");
    assert_eq!(verified.timelines[0].start, "2");
    assert_eq!(verified.timelines[0].end, "9");
    assert_eq!(verified.entity_paths, vec!["/robot".to_owned(), "/static".to_owned()]);
    let shown: Vec<(String, EntityVisualization)> = verified
        .entity_descriptors
        .iter()
        .map(|d| (d.path.clone(), d.visualization))
        .collect();
    assert_eq!(
        shown,
        vec![
            ("/robot".to_owned(), EntityVisualization::Spatial3d),
            ("/static".to_owned(), EntityVisualization::Raw),
        ]
    );
}

fn digest_of(bytes: &[u8]) -> FileDigest {
    FileDigest::new().take_in(bytes).expect("the bytes fit")
}

#[test]
fn recordings_can_be_imported_again() {
    let import = |source: &[u8]| {
        let request = ValidatedRequest {
            source_path: "/in/r.rrd".to_owned(),
            output_path: "/out/r.rrd".to_owned(),
            recording_name: "r".to_owned(),
            extension: "rrd".to_owned(),
        };
        let verified = verify_rrd(&recording_file(), &Some("tick".to_owned()), "r.rrd").unwrap();
        let measure = TimelineMeasure { duration_seconds: None, fps: None };
        let written = WrittenRecording {
            source: digest_of(source),
            content: digest_of(b"recording"),
            rrd_version: "0.36.1".to_owned(),
            verified,
            measures: vec![measure],
            duration_seconds: 0.0_f64.to_bits(),
            directory_synced: true,
        };
        run_import(&request, written, ConversionHints::default())
    };
    let first = import(b"table");
    let second = import(b"recording");
    assert_eq!(second.source_sha256, first.content_sha256);
    assert_eq!(second.entity_paths, first.entity_paths);
    assert_eq!(second.timelines, first.timelines);
    assert_eq!(second.default_timeline, first.default_timeline);
}

#[test]
fn import_results_hold_what_was_verified() {
    let verified = verify_rrd(&recording_file(), &Some("tick".to_owned()), "r.rrd").unwrap();
    let request = ValidatedRequest {
        source_path: "/in/r.rrd".to_owned(),
        output_path: "/out/r.rrd".to_owned(),
        recording_name: "r".to_owned(),
        extension: "rrd".to_owned(),
    };
    let measure =
        TimelineMeasure { duration_seconds: Some(1.0_f64.to_bits()), fps: Some(7.0_f64.to_bits()) };
    let written = WrittenRecording {
        source: digest_of(b"source"),
        content: digest_of(b"content"),
        rrd_version: "0.36.1".to_owned(),
        verified,
        measures: vec![measure],
        duration_seconds: 1.0_f64.to_bits(),
        directory_synced: false,
    };
    let result = run_import(&request, written, ConversionHints::default());
    assert_eq!(result.rrd_path, "/out/r.rrd");
    assert_eq!(result.source_sha256, hex_sha256(b"source"));
    assert_eq!(result.content_sha256, hex_sha256(b"content"));
    assert_eq!(result.size_bytes, 7);
    assert!(result.footer_verified);
    assert_eq!(result.default_timeline, "tick");
    assert_eq!(result.timelines.len(), 1);
    assert_eq!(result.timelines[0].name, "tick");
    assert_eq!(result.timelines[0].fps, measure.fps);
    assert_eq!(result.timelines[0].duration_seconds, measure.duration_seconds);
    assert_eq!(result.warnings.len(), 1);
    let again = inspect_rrd_entity_descriptors(&recording_file(), "/out/r.rrd").unwrap();
    assert_eq!(result.entity_descriptors, again);
}

#[test]
fn short_files_hold_no_recording() {
    assert!(check_size(33, 32, "r.rrd").is_ok());
    let error = check_size(32, 32, "r.rrd").unwrap_err();
    assert_eq!(error.user_reason(), "The converted recording contains no Replay data.");
    assert_eq!(error.internal_detail(), "RRD is only 32 bytes\nFile path: r.rrd");
}

#[test]
fn recordings_without_temporal_data_are_refused() {
    let mut file = recording_file();
    file.stores[0].temporal.clear();
    file.stores[0].temporal_entities.clear();
    file.payloads[0].decoded.clear();
    let error = verify_rrd(&file, &None, "still.rrd").unwrap_err();
    assert_eq!(error.code(), ImportErrorCode::OutputValidationFailed);
    assert_eq!(error.user_reason(), "The recording contains no temporal data to Replay.");
}

#[test]
fn entities_take_their_highest_view() {
    let mut entities: Table<Marker> = Table::new();
    entities.insert("/robot".to_owned(), Marker {});
    let columns = vec![
        ComponentColumn {
            entity_path: "/robot".to_owned(),
            archetype: Some("Transform3D".to_owned()),
        },
        ComponentColumn {
            entity_path: "/robot".to_owned(),
            archetype: Some("Points3D".to_owned()),
        },
    ];
    let found = recording_entity_descriptors(&columns, &entities);
    assert_eq!(found.len(), 1);
    let expected = if visualization_priority(EntityVisualization::Spatial3d)
        > visualization_priority(EntityVisualization::Transform3d)
    {
        EntityVisualization::Spatial3d
    } else {
        EntityVisualization::Transform3d
    };
    assert_eq!(found[0].visualization, expected);
}

fn time_column(name: &str, time: i64) -> ManifestColumn {
    ManifestColumn {
        name: name.to_owned(),
        component: None,
        index: Some("tick".to_owned()),
        data_type: "Int64".to_owned(),
        booleans: None,
        kind: Some(TimelineKind::Sequence),
        times: vec![time],
        time_fault: String::new(),
        valid: vec![true],
    }
}

fn decoded_robot(start: i64) -> DecodedChunk {
    DecodedChunk {
        id: "chunk-100".to_owned(),
        entity_path: "/robot".to_owned(),
        is_static: false,
        num_rows: 1,
        components: vec!["Points3D:positions".to_owned()],
        timelines: vec![DecodedTimeline {
            name: "tick".to_owned(),
            kind: TimelineKind::Sequence,
            range: TimeRange { start, end: 9 },
        }],
    }
}

#[test]
fn temporal_chunks_keep_their_promised_ranges() {
    let store = recording_store();
    let columns = vec![time_column("tick:start", 2), time_column("tick:end", 9)];
    let expected = expected_chunk_metadata(&store.chunks, &columns, &store.temporal, "r.rrd")
        .expect("the manifest is consistent");
    validate_decoded_chunk_metadata(&decoded_robot(2), &expected, "r.rrd")
        .expect("the chunk is as the manifest promises");
    assert!(validate_decoded_chunk_metadata(&decoded_robot(3), &expected, "r.rrd").is_err());
    assert!(
        expected_chunk_metadata(&store.chunks, &columns[..1].iter().map(|_| time_column("tick:start", 2)).collect(), &store.temporal, "r.rrd").is_err(),
        "a timeline without an end column is refused"
    );
}
