use std::borrow::Cow;
use std::collections::BTreeMap;

use rms::conversion::{
    check_mcap_contents, check_mcap_file, check_mcap_summary, import_mcap_files, inspect_mcap,
    mcap_hints, preflight_mcap,
};
use rms::import::ImportErrorCode;
use rms::mcap_limits::{
    has_mcap_magic, inspect_mcap_chunk, preflight_mcap_summary, read_summary,
    validate_mcap_resources,
    AttachmentIndex, ChunkIndex, McapSummary, MetadataIndex, MAX_MCAP_ATTACHMENTS,
    MAX_MCAP_ATTACHMENT_DATA_BYTES, MAX_MCAP_CHUNKS, MAX_MCAP_CHUNK_UNCOMPRESSED_BYTES,
    MAX_MCAP_DECODE_WORKERS, MAX_MCAP_SUMMARY_RECORDS, MAX_MCAP_TOTAL_ATTACHMENT_BYTES,
    MAX_MCAP_TOTAL_METADATA_BYTES, MAX_MCAP_TOTAL_UNCOMPRESSED_BYTES, OP_ATTACHMENT,
    OP_ATTACHMENT_INDEX, OP_CHANNEL, OP_CHUNK, OP_CHUNK_INDEX, OP_FOOTER, OP_METADATA,
    OP_METADATA_INDEX, OP_SCHEMA, OP_STATISTICS, OP_SUMMARY_OFFSET,
};

const TEST_OUTPUT_LIMIT: u64 = 256 * 1024 * 1024;

#[test]
fn mcap_decompression_budget_and_worker_pool_are_service_bounded() {
    assert_eq!(MAX_MCAP_CHUNK_UNCOMPRESSED_BYTES, 64 * 1024 * 1024);
    assert_eq!(MAX_MCAP_TOTAL_UNCOMPRESSED_BYTES, 2 * 1024 * 1024 * 1024);
    assert_eq!(MAX_MCAP_DECODE_WORKERS, 2);

    let pool = rayon::ThreadPoolBuilder::new()
        .num_threads(MAX_MCAP_DECODE_WORKERS)
        .build()
        .expect("bounded MCAP decode pool should build");
    assert_eq!(pool.current_num_threads(), MAX_MCAP_DECODE_WORKERS);
    assert_eq!(
        pool.install(rayon::current_num_threads),
        MAX_MCAP_DECODE_WORKERS,
        "re_mcap must observe at most two workers and select its serial decode path"
    );
}

fn summary_bomb(op: u8, count: usize) -> Vec<u8> {
    let mut bytes = mcap::MAGIC.to_vec();
    let summary_start = bytes.len() as u64;
    for _ in 0..count {
        bytes.push(op);
        bytes.extend_from_slice(&0_u64.to_le_bytes());
    }
    bytes.push(mcap::records::op::FOOTER);
    bytes.extend_from_slice(&20_u64.to_le_bytes());
    bytes.extend_from_slice(&summary_start.to_le_bytes());
    bytes.extend_from_slice(&0_u64.to_le_bytes());
    bytes.extend_from_slice(&0_u32.to_le_bytes());
    bytes.extend_from_slice(mcap::MAGIC);
    bytes
}

#[test]
fn mcap_summary_record_count_is_bounded_before_owned_parse() {
    let bytes = summary_bomb(mcap::records::op::SCHEMA, MAX_MCAP_SUMMARY_RECORDS + 1);
    let error = preflight_mcap_summary(&bytes, "adversarial.mcap")
        .expect_err("summary record bomb must fail before mcap::Summary allocation");
    assert_eq!(error.code(), ImportErrorCode::ResourceLimitExceeded);
}

#[test]
fn mcap_summary_chunk_index_count_is_bounded_before_owned_parse() {
    let bytes = summary_bomb(mcap::records::op::CHUNK_INDEX, MAX_MCAP_CHUNKS + 1);
    let error = preflight_mcap_summary(&bytes, "chunk-index-bomb.mcap")
        .expect_err("chunk-index bomb must fail before mcap::Summary allocation");
    assert_eq!(error.code(), ImportErrorCode::ResourceLimitExceeded);
}

fn plain_summary(summary: &mcap::Summary) -> McapSummary {
    McapSummary {
        message_count: summary.stats.as_ref().map(|stats| stats.message_count),
        schemas: summary.schemas.values().map(|s| (s.id as u64, s.data.len() as u64)).collect(),
        topics: summary.channels.values().map(|c| c.topic.clone()).collect(),
        chunk_indexes: summary
            .chunk_indexes
            .iter()
            .map(|c| ChunkIndex {
                message_start_time: c.message_start_time,
                message_end_time: c.message_end_time,
                chunk_start_offset: c.chunk_start_offset,
                chunk_length: c.chunk_length,
                compression: c.compression.clone(),
                compressed_size: c.compressed_size,
                uncompressed_size: c.uncompressed_size,
            })
            .collect(),
        attachment_indexes: summary
            .attachment_indexes
            .iter()
            .map(|a| AttachmentIndex {
                offset: a.offset,
                length: a.length,
                log_time: a.log_time,
                create_time: a.create_time,
                data_size: a.data_size,
                name: a.name.clone(),
                media_type: a.media_type.clone(),
            })
            .collect(),
        metadata_indexes: summary
            .metadata_indexes
            .iter()
            .map(|m| MetadataIndex { offset: m.offset, length: m.length, name: m.name.clone() })
            .collect(),
    }
}

fn indexed_file() -> (mcap::Summary, Vec<u8>) {
    let cursor = std::io::Cursor::new(Vec::new());
    let mut writer = mcap::Writer::new(cursor).expect("create MCAP writer");
    let channel_id =
        writer.add_channel(0, "topic", "raw", &BTreeMap::new()).expect("add channel");
    writer
        .write_to_known_channel(
            &mcap::records::MessageHeader { channel_id, sequence: 0, log_time: 1, publish_time: 1 },
            &[1],
        )
        .expect("write message");
    writer.flush().expect("flush indexed chunk");
    writer
        .attach(&mcap::Attachment {
            log_time: 1,
            create_time: 1,
            name: "calibration".to_owned(),
            media_type: "application/octet-stream".to_owned(),
            data: Cow::Borrowed(&[1]),
        })
        .expect("write attachment");
    writer
        .write_metadata(&mcap::records::Metadata {
            name: "device".to_owned(),
            metadata: BTreeMap::from([("id".to_owned(), "robot-1".to_owned())]),
        })
        .expect("write metadata");
    let summary = writer.finish().expect("finish MCAP");
    let bytes = writer.into_inner().into_inner();
    (summary, bytes)
}

#[test]
fn mcap_attachment_and_metadata_records_are_request_bounded() {
    let (summary, bytes) = indexed_file();
    validate_mcap_resources(&plain_summary(&summary), &bytes, TEST_OUTPUT_LIMIT, "bounded.mcap")
        .expect("small indexed resources are valid");

    let mut oversized_attachment = plain_summary(&summary);
    oversized_attachment.attachment_indexes[0].data_size = MAX_MCAP_ATTACHMENT_DATA_BYTES + 1;
    let error = validate_mcap_resources(
        &oversized_attachment,
        &bytes,
        TEST_OUTPUT_LIMIT,
        "attachment-bomb.mcap",
    )
    .expect_err("oversized attachment must fail before decoding");
    assert_eq!(error.code(), ImportErrorCode::ResourceLimitExceeded);

    let mut oversized_metadata = plain_summary(&summary);
    oversized_metadata.metadata_indexes[0].length = MAX_MCAP_TOTAL_METADATA_BYTES + 1;
    let error = validate_mcap_resources(
        &oversized_metadata,
        &bytes,
        TEST_OUTPUT_LIMIT,
        "metadata-bomb.mcap",
    )
    .expect_err("oversized metadata must fail before decoding");
    assert_eq!(error.code(), ImportErrorCode::ResourceLimitExceeded);

    assert_eq!(MAX_MCAP_ATTACHMENTS, 1_024);
    assert_eq!(MAX_MCAP_TOTAL_ATTACHMENT_BYTES, 128 * 1024 * 1024);
}

#[test]
fn record_codes_are_those_of_the_format() {
    assert_eq!(OP_FOOTER, mcap::records::op::FOOTER);
    assert_eq!(OP_SCHEMA, mcap::records::op::SCHEMA);
    assert_eq!(OP_CHANNEL, mcap::records::op::CHANNEL);
    assert_eq!(OP_CHUNK, mcap::records::op::CHUNK);
    assert_eq!(OP_CHUNK_INDEX, mcap::records::op::CHUNK_INDEX);
    assert_eq!(OP_ATTACHMENT, mcap::records::op::ATTACHMENT);
    assert_eq!(OP_ATTACHMENT_INDEX, mcap::records::op::ATTACHMENT_INDEX);
    assert_eq!(OP_STATISTICS, mcap::records::op::STATISTICS);
    assert_eq!(OP_METADATA, mcap::records::op::METADATA);
    assert_eq!(OP_METADATA_INDEX, mcap::records::op::METADATA_INDEX);
    assert_eq!(OP_SUMMARY_OFFSET, mcap::records::op::SUMMARY_OFFSET);
    assert!(has_mcap_magic(mcap::MAGIC));
    assert!(!has_mcap_magic(b"\x89MCAP1\r\n"));
}

#[test]
fn attachments_must_be_what_their_index_says() {
    let (summary, bytes) = indexed_file();
    let mut renamed = plain_summary(&summary);
    renamed.attachment_indexes[0].name = "other".to_owned();
    let error =
        validate_mcap_resources(&renamed, &bytes, TEST_OUTPUT_LIMIT, "renamed.mcap").unwrap_err();
    assert_eq!(error.code(), ImportErrorCode::ValidationFailed);
    let mut relabeled = plain_summary(&summary);
    relabeled.metadata_indexes[0].name = "other".to_owned();
    assert!(validate_mcap_resources(&relabeled, &bytes, TEST_OUTPUT_LIMIT, "relabeled.mcap").is_err());
}

#[test]
fn chunks_are_inspected_before_they_are_decompressed() {
    let (summary, bytes) = indexed_file();
    let plain = plain_summary(&summary);
    let chunk = inspect_mcap_chunk(&bytes, &plain.chunk_indexes[0], "chunk.mcap").unwrap();
    assert_eq!(chunk.compression, plain.chunk_indexes[0].compression);
    assert_eq!(chunk.uncompressed_size, plain.chunk_indexes[0].uncompressed_size);
    let mut moved = plain_summary(&summary);
    moved.chunk_indexes[0].chunk_start_offset += 1;
    assert!(inspect_mcap_chunk(&bytes, &moved.chunk_indexes[0], "moved.mcap").is_err());
}

#[test]
fn inspected_files_list_their_topics() {
    let (summary, bytes) = indexed_file();
    let topics = inspect_mcap(&bytes, TEST_OUTPUT_LIMIT, "real.mcap").expect("the file is sound");
    assert_eq!(topics, vec!["topic".to_owned()]);
    let again =
        check_mcap_summary(&plain_summary(&summary), &bytes, TEST_OUTPUT_LIMIT, "real.mcap").unwrap();
    assert_eq!(again, topics);
    let read = read_summary(&bytes, "real.mcap").unwrap().expect("there is a summary");
    assert_eq!(read.message_count, Some(1));
    assert_eq!(read.attachment_indexes[0].name, "calibration");
    assert_eq!(read.metadata_indexes[0].name, "device");
    assert_eq!(read.chunk_indexes.len(), 1);

    let mut silent = plain_summary(&summary);
    silent.message_count = Some(0);
    let error =
        check_mcap_summary(&silent, &bytes, TEST_OUTPUT_LIMIT, "silent.mcap").unwrap_err();
    assert_eq!(error.user_reason(), "The MCAP contains no channels or messages to Replay.");
    assert!(inspect_mcap(&bytes[..bytes.len() - 1], TEST_OUTPUT_LIMIT, "cut.mcap").is_err());
}

#[test]
fn unreadable_summaries_are_refused() {
    let bytes = summary_bomb(mcap::records::op::CHUNK_INDEX, 1);
    let error = inspect_mcap(&bytes, TEST_OUTPUT_LIMIT, "broken.mcap").unwrap_err();
    assert_eq!(error.code(), ImportErrorCode::ValidationFailed);
    assert_eq!(error.user_reason(), "The MCAP header or summary is invalid.");
}

#[test]
fn records_must_have_the_length_of_their_index() {
    let (summary, bytes) = indexed_file();
    let mut short = bytes.clone();
    let at = summary.attachment_indexes[0].offset as usize;
    short[at + 1] -= 4;
    let error = validate_mcap_resources(
        &plain_summary(&summary),
        &short,
        TEST_OUTPUT_LIMIT,
        "short.mcap",
    )
    .unwrap_err();
    assert_eq!(error.code(), ImportErrorCode::ValidationFailed);
    let mut swapped = bytes.clone();
    swapped[summary.metadata_indexes[0].offset as usize] = OP_ATTACHMENT;
    assert!(validate_mcap_resources(
        &plain_summary(&summary),
        &swapped,
        TEST_OUTPUT_LIMIT,
        "swapped.mcap"
    )
    .is_err());
}

#[test]
fn oversized_schemas_are_named_in_the_order_of_their_identifiers() {
    let (summary, bytes) = indexed_file();
    let mut oversized = plain_summary(&summary);
    oversized.schemas = vec![(9, 9_000_000), (2, 8_500_000)];
    let error =
        validate_mcap_resources(&oversized, &bytes, TEST_OUTPUT_LIMIT, "schemas.mcap").unwrap_err();
    assert_eq!(
        error.internal_detail(),
        "MCAP schema is 8500000 bytes; maximum is 8388608\nFile path: schemas.mcap"
    );
}

#[test]
fn real_files_pass_the_preflight() {
    let (_, bytes) = indexed_file();
    preflight_mcap(&bytes, "real.mcap").expect("a written file is accepted");
    assert!(preflight_mcap(&bytes[..bytes.len() - 1], "cut.mcap").is_err());
}

#[test]
fn empty_files_have_nothing_to_replay() {
    assert!(check_mcap_file(true, 100, "m.mcap").is_ok());
    assert!(check_mcap_file(false, 100, "m.mcap").is_err());
    assert!(check_mcap_contents(Some(1), 1, "m.mcap").is_ok());
    assert!(check_mcap_contents(Some(0), 1, "m.mcap").is_err());
    let error = import_mcap_files(&vec!["b".to_owned()], 0).unwrap_err();
    assert_eq!(error.code(), ImportErrorCode::ValidationFailed);
    let topics =
        import_mcap_files(&vec!["b".to_owned(), "a".to_owned(), "b".to_owned()], 1).unwrap();
    assert_eq!(topics, vec!["a".to_owned(), "b".to_owned()]);
    let hints = mcap_hints(topics, Vec::new());
    assert_eq!(hints.default_timeline.as_deref(), Some("message_log_time"));
}
