use rms::catalog::{Catalog, StoredImportArtifact};
use rms::domain::{
    AccessMode, DeviceAssignment, Device, Project, RecordingImport, RecordingProjectSnapshot,
};
use rms::import::{
    EntityDescriptor, EntityVisualization, ImportErrorCode, ImportFormat, ImportResult,
    TimelineDescriptor, TimelineKind,
};
use rms::imports::{
    begin_deletion, find_upload, finish_import_failure, get_import, list_imports, register_import,
    remove_import, restore_import, settle_worker, undo_cancellation, DeletionStep, ImportIds,
    ImportOutcome, WorkerEvent,
};
use rms::rosbag::{
    accept_entry, count_piece, finish_entry, parse_metadata, prepare_rosbag, read_zip_tail,
    validate_relative_segment, validate_zip_magic, ArchiveEntry, BagPlan, Extraction,
};
use rms::table::Copied as _;
use rms::topics::recording_topics;
use rms::uploads::{UploadFields, UploadedFile};

const NOW: &str = "2026-08-26T00:00:00Z";
const IMPORT: &str = "recording-import-persist-failure";

fn processing() -> Catalog {
    let mut catalog = Catalog::new();
    let resource_version = catalog.bump_version();
    catalog.recording_imports.insert(
        IMPORT.to_owned(),
        RecordingImport {
            id: IMPORT.to_owned(),
            project_id: "project-logistics".to_owned(),
            device_id: "robot-07".to_owned(),
            data_source_id: "import-source".to_owned(),
            file_name: "capture.rrd".to_owned(),
            format: "rrd".to_owned(),
            status: "processing".to_owned(),
            progress_percent: 10,
            size_bytes: 6,
            source_sha256: Some("source-hash".to_owned()),
            artifact_url: Some(format!("/api/v1/recording-imports/{IMPORT}/artifact")),
            recording_id: None,
            failure_reason: None,
            warnings: Vec::new(),
            created_at: NOW.to_owned(),
            updated_at: NOW.to_owned(),
            resource_version,
        },
    );
    catalog.import_artifacts.insert(
        IMPORT.to_owned(),
        StoredImportArtifact {
            source_relative_path: format!("imports/{IMPORT}/source/upload.bin"),
            rrd_relative_path: None,
            source_content_type: "application/octet-stream".to_owned(),
            internal_detail: None,
            organization_id: "organization-acme".to_owned(),
            project_snapshot: RecordingProjectSnapshot {
                project_id: "project-logistics".to_owned(),
                project_name: "Logistics".to_owned(),
                captured_at: NOW.to_owned(),
                device_assignment_id: "device-assignment".to_owned(),
                data_assignment_id: "data-assignment".to_owned(),
            },
            topic_ids: Vec::new(),
            mapping_version: 1,
        },
    );
    catalog.import_cancellations.insert(IMPORT.to_owned(), rms::catalog::Marker {});
    catalog
}

#[test]
fn cancellation_persist_failure_keeps_processing_import_and_artifacts() {
    let mut catalog = processing();
    let snapshot_version = catalog.snapshot_version;
    let resource_version = get_import(&catalog, IMPORT).unwrap().resource_version;
    let step = begin_deletion(&mut catalog, IMPORT, "2026-08-26T00:01:00Z").unwrap();
    let DeletionStep::Cancelled(previous) = step else {
        panic!("a processing import is cancelled first");
    };
    let error = undo_cancellation(&mut catalog, IMPORT, previous, snapshot_version);
    assert_eq!(error.kind, rms::api::ApiErrorKind::Internal);

    let import = catalog.recording_imports.get(IMPORT).expect("processing import is restored");
    assert_eq!(import.status, "processing");
    assert_eq!(import.progress_percent, 10);
    assert_eq!(import.resource_version, resource_version);
    assert_eq!(catalog.snapshot_version, snapshot_version);
    assert!(catalog.import_artifacts.contains(IMPORT));
    assert!(catalog.import_cancellations.contains(IMPORT));
}

#[test]
fn failed_imports_can_be_removed_and_restored() {
    let mut catalog = processing();
    let version = get_import(&catalog, IMPORT).unwrap().resource_version;
    assert!(!finish_import_failure(&mut catalog, IMPORT, version + 1, "r", "d", NOW));
    assert!(finish_import_failure(&mut catalog, IMPORT, version, "Broken.", "detail", NOW));
    assert_eq!(get_import(&catalog, IMPORT).unwrap().status, "failed");
    catalog.import_cancellations.remove(IMPORT);
    let before = catalog.copied();
    assert!(matches!(begin_deletion(&mut catalog, IMPORT, NOW).unwrap(), DeletionStep::Remove));
    let removed = remove_import(&mut catalog, IMPORT).unwrap();
    assert!(get_import(&catalog, IMPORT).is_err());
    restore_import(&mut catalog, IMPORT, removed);
    assert_eq!(get_import(&catalog, IMPORT).unwrap().status, "failed");
    assert_eq!(catalog.snapshot_version, before.snapshot_version);
}

fn with_project() -> Catalog {
    let mut catalog = Catalog::new();
    catalog.projects.insert(
        "project-logistics".to_owned(),
        Project {
            id: "project-logistics".to_owned(),
            organization_id: "org-rms".to_owned(),
            name: "Logistics".to_owned(),
            description: String::new(),
            status: "active".to_owned(),
            device_count: 1,
            online_device_count: 0,
            created_at: NOW.to_owned(),
            resource_version: 1,
        },
    );
    catalog.devices.insert(
        "robot-07".to_owned(),
        Device {
            id: "robot-07".to_owned(),
            organization_id: "org-rms".to_owned(),
            integration_id: "integration-logistics".to_owned(),
            name: "Robot 07".to_owned(),
            kind: "robot".to_owned(),
            status: "offline".to_owned(),
            health: "normal".to_owned(),
            operation_mode: String::new(),
            battery_percent: None,
            task_name: String::new(),
            task_progress: 0,
            last_seen_at: NOW.to_owned(),
            state_version: 1,
        },
    );
    catalog.device_assignments.insert(
        "assignment-1".to_owned(),
        DeviceAssignment {
            id: "assignment-1".to_owned(),
            project_id: "project-logistics".to_owned(),
            device_id: "robot-07".to_owned(),
            access_mode: AccessMode::Control,
            valid_from: NOW.to_owned(),
            valid_to: None,
            resource_version: 1,
        },
    );
    catalog
}

fn uploaded() -> UploadFields {
    UploadFields {
        project_id: Some("project-logistics".to_owned()),
        device_id: Some("robot-07".to_owned()),
        data_source_id: None,
        requested_format: Some("rrd".to_owned()),
        mapping: None,
        file: Some(UploadedFile {
            file_name: "capture.rrd".to_owned(),
            relative_path: "imports/i1/source/upload.bin".to_owned(),
            format: ImportFormat::Rrd,
            format_label: "rrd".to_owned(),
            content_type: "application/octet-stream".to_owned(),
            size_bytes: 6,
            sha256: "source-hash".to_owned(),
        }),
    }
}

fn ids(import: &str) -> ImportIds {
    ImportIds {
        import_id: import.to_owned(),
        source_id: "file-source".to_owned(),
        assignment_id: "file-assignment".to_owned(),
    }
}

#[test]
fn repeated_uploads_return_the_import() {
    let mut catalog = with_project();
    let key = Some("key-1".to_owned());
    let (import, new) = register_import(&mut catalog, &uploaded(), &key, &ids("i1"), NOW).unwrap();
    assert!(new);
    assert_eq!(import.id, "i1");
    let (again, new) = register_import(&mut catalog, &uploaded(), &key, &ids("i2"), NOW).unwrap();
    assert!(!new);
    assert_eq!(again.id, "i1");
    let mut other = uploaded();
    other.file.as_mut().unwrap().sha256 = "other-hash".to_owned();
    assert!(register_import(&mut catalog, &other, &key, &ids("i3"), NOW).is_err());
    assert_eq!(list_imports(&catalog, &None).len(), 1);
    assert_eq!(list_imports(&catalog, &Some("elsewhere".to_owned())).len(), 0);
}

#[test]
fn known_uploads_are_found_before_they_are_admitted() {
    let mut catalog = with_project();
    let key = Some("key-1".to_owned());
    assert!(find_upload(&catalog, &uploaded(), &key).unwrap().is_none());
    register_import(&mut catalog, &uploaded(), &key, &ids("i1"), NOW).unwrap();
    let found = find_upload(&catalog, &uploaded(), &key).unwrap();
    assert_eq!(found.map(|import| import.id), Some("i1".to_owned()));
    assert!(find_upload(&catalog, &uploaded(), &None).unwrap().is_none());
    let mut other = uploaded();
    other.file.as_mut().unwrap().sha256 = "other-hash".to_owned();
    assert!(find_upload(&catalog, &other, &key).is_err());
    let mut unfinished = uploaded();
    unfinished.file = None;
    assert!(find_upload(&catalog, &unfinished, &key).is_err());
}

fn converted() -> ImportResult {
    ImportResult {
        rrd_path: "imports/i1/recording.rrd".to_owned(),
        source_sha256: "source-hash".to_owned(),
        content_sha256: "content-hash".to_owned(),
        size_bytes: 100,
        rrd_version: "0.36.1".to_owned(),
        footer_verified: true,
        timelines: vec![TimelineDescriptor {
            name: "tick".to_owned(),
            kind: TimelineKind::Sequence,
            start: "0".to_owned(),
            end: "9".to_owned(),
            duration_seconds: None,
            fps: None,
        }],
        default_timeline: "tick".to_owned(),
        duration_seconds: 5.0_f64.to_bits(),
        warnings: Vec::new(),
        entity_paths: Vec::new(),
        entity_descriptors: Vec::new(),
        topics: Vec::new(),
    }
}

fn settle(catalog: &mut Catalog, version: u64, event: &WorkerEvent) -> ImportOutcome {
    settle_worker(
        catalog,
        "i1",
        version,
        "source-hash",
        "imports/i1/recording.rrd",
        1_000,
        event,
        "r1",
        "00:05",
        NOW,
    )
}

#[test]
fn only_a_running_import_becomes_a_recording() {
    let mut catalog = with_project();
    let (import, _) = register_import(&mut catalog, &uploaded(), &None, &ids("i1"), NOW).unwrap();
    let event = WorkerEvent::Converted(converted());
    assert!(matches!(
        settle(&mut catalog, import.resource_version + 1, &event),
        ImportOutcome::Discarded
    ));
    assert!(matches!(
        settle(&mut catalog, import.resource_version, &event),
        ImportOutcome::Committed(_)
    ));
    let recording = catalog.recordings.get("r1").expect("the recording is kept");
    assert_eq!(recording.manifest_hash, "sha256:content-hash");
    assert_eq!(recording.name, "capture");
    assert_eq!(recording.duration_label, "00:05");
    assert_eq!(get_import(&catalog, "i1").unwrap().status, "ready");
}

#[test]
fn recordings_bring_the_topics_of_their_entities() {
    let entities = vec![
        EntityDescriptor {
            path: "/front".to_owned(),
            visualization: EntityVisualization::Camera,
        },
        EntityDescriptor {
            path: "/route".to_owned(),
            visualization: EntityVisualization::GeoMap,
        },
    ];
    let paths = vec!["/front".to_owned(), "/route".to_owned()];
    assert!(recording_topics("s", "d", &Vec::new(), &entities, NOW).is_empty());
    let plain = recording_topics("s", "d", &paths, &Vec::new(), NOW);
    assert_eq!(plain.len(), 2);
    assert!(plain.iter().all(|topic| topic.renderer == "raw"));
    let shown = recording_topics("s", "d", &paths, &entities, NOW);
    let renderers: Vec<&str> = shown.iter().map(|topic| topic.renderer.as_str()).collect();
    assert_eq!(renderers, vec!["camera", "map"]);
    assert_eq!(shown[0].id, plain[0].id);
    assert_eq!(shown[0].path, "/front");
    assert_eq!(shown[0].data_source_id, "s");

    let mut catalog = with_project();
    let (import, _) = register_import(&mut catalog, &uploaded(), &None, &ids("i1"), NOW).unwrap();
    let mut result = converted();
    result.entity_paths = paths;
    result.entity_descriptors = entities;
    settle(&mut catalog, import.resource_version, &WorkerEvent::Converted(result));
    let topics = &catalog.topics_by_recording.get("r1").expect("the recording has topics").topics;
    assert_eq!(topics.len(), 2);
    assert_eq!(topics[0].renderer, "camera");
    assert_eq!(topics[1].renderer, "map");
    let source = catalog.data_sources.get("file-source").expect("the source is kept");
    assert_eq!(source.topic_ids, vec![topics[0].id.clone(), topics[1].id.clone()]);
    assert_eq!(catalog.topics_by_data_source.get("file-source").unwrap().topics.len(), 2);
}

#[test]
fn later_imports_keep_earlier_recordings() {
    let mut catalog = with_project();
    let (import, _) = register_import(&mut catalog, &uploaded(), &None, &ids("i1"), NOW).unwrap();
    settle(&mut catalog, import.resource_version, &WorkerEvent::Converted(converted()));
    let recording = format!("{:?}", catalog.recordings.get("r1"));
    let topics = format!("{:?}", catalog.topics_by_recording.get("r1"));
    let (second, _) = register_import(&mut catalog, &uploaded(), &None, &ids("i2"), NOW).unwrap();
    let outcome = settle_worker(
        &mut catalog,
        "i2",
        second.resource_version,
        "source-hash",
        "imports/i2/recording.rrd",
        1_000,
        &WorkerEvent::Converted(converted()),
        "r2",
        "00:05",
        NOW,
    );
    assert!(matches!(outcome, ImportOutcome::Committed(_)));
    assert!(catalog.recordings.contains("r2"));
    assert_eq!(format!("{:?}", catalog.recordings.get("r1")), recording);
    assert_eq!(format!("{:?}", catalog.topics_by_recording.get("r1")), topics);
    assert_eq!(
        catalog.recording_artifacts.get("r1").map(String::as_str),
        Some("imports/i1/recording.rrd")
    );
}

#[test]
fn tampered_conversions_fail() {
    let mut catalog = with_project();
    let (import, _) = register_import(&mut catalog, &uploaded(), &None, &ids("i1"), NOW).unwrap();
    let mut result = converted();
    result.source_sha256 = "another".to_owned();
    assert!(matches!(
        settle(&mut catalog, import.resource_version, &WorkerEvent::Converted(result)),
        ImportOutcome::Failed
    ));
    assert_eq!(catalog.recordings.len(), 0);
    assert_eq!(get_import(&catalog, "i1").unwrap().status, "failed");
}

const METADATA: &str = "rosbag2_bagfile_information:\n  version: 5\n  storage_identifier: mcap\n  relative_file_paths:\n    - segment_0.mcap\n";

fn entry(name: &str, size: u64) -> ArchiveEntry {
    ArchiveEntry {
        name: name.to_owned(),
        enclosed: Some(name.to_owned()),
        unix_mode: Some(0o100_644),
        size,
        compressed_size: size,
        is_dir: false,
    }
}

fn extract(files: &[&str]) -> Extraction {
    let mut x = Extraction::new(1 << 20);
    for file in files {
        let path = accept_entry(&mut x, &entry(file, 10)).expect("the entry is safe");
        let copied = count_piece(&mut x, 10, 0, 10).unwrap();
        finish_entry(&mut x, &format!("/work/{path}"), 10, copied).unwrap();
    }
    x
}

#[test]
fn rosbag_zip_uses_only_metadata_declared_real_mcap_segments() {
    let bag = extract(&["bag/metadata.yaml", "bag/segment_0.mcap"]);
    match prepare_rosbag(&bag, "/work", METADATA).expect("the bag is consistent") {
        BagPlan::Read(paths) => assert_eq!(paths, vec!["/work/bag/segment_0.mcap".to_owned()]),
        BagPlan::Convert => panic!("an MCAP bag is read as it is"),
    }
    let injected = extract(&["bag/metadata.yaml", "bag/segment_0.mcap", "bag/injected.mcap"]);
    let error = prepare_rosbag(&injected, "/work", METADATA)
        .expect_err("unlisted MCAP segment must be rejected");
    assert_eq!(error.code(), ImportErrorCode::ValidationFailed);
}

#[test]
fn extraction_stays_within_its_limit() {
    let mut x = Extraction::new(1 << 20);
    let limit = x.limit;
    assert!(accept_entry(&mut x, &entry("huge.bin", limit + 1)).is_err());
    let mut escaping = entry("../x", 1);
    escaping.enclosed = None;
    assert!(accept_entry(&mut x, &escaping).is_err());
    let mut link = entry("link", 1);
    link.unix_mode = Some(0o120_777);
    assert!(accept_entry(&mut x, &link).is_err());
    accept_entry(&mut x, &entry("a", 10)).unwrap();
    assert!(accept_entry(&mut x, &entry("a", 10)).is_err(), "a path occurs once");
    assert!(count_piece(&mut x, 10, 5, 6).is_err());
    assert!(finish_entry(&mut x, "/work/a", 10, 9).is_err());
}

#[test]
fn bag_metadata_is_read_strictly() {
    let read = parse_metadata(METADATA).unwrap();
    assert_eq!(read.storage_identifier, "mcap");
    assert_eq!(read.relative_file_paths, vec!["segment_0.mcap".to_owned()]);
    assert!(parse_metadata("version: 5\n").is_err());
    assert!(validate_relative_segment("segment_0.mcap").is_ok());
    assert!(validate_relative_segment("../x.mcap").is_err());
    assert!(validate_zip_magic(b"PK\x03\x04").is_ok());
    assert!(validate_zip_magic(b"RRF2").is_err());
    assert!(read_zip_tail(b"no directory here, sorry", 24).is_err());
}
