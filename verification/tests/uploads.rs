use rms::api::ApiError;
use rms::conversion::{
    needs_transcoding, validate_extension, validate_original_file_name, validate_video_magic,
    video_entity_path, video_hints,
};
use rms::encoding::decode_exact;
use rms::hashing::{hex_sha256, stable_asset_id, FileDigest};
use rms::import::{
    check_cancelled, encode_error, ImportCancellation, ImportErrorCode, ImportFormat, OutputBudget,
};
use rms::security::{
    allowed_origin, check_bind_address, configured_values, host_is_allowed, preflight_headers,
    validate_request, Gate, RequestHead,
};
use rms::discovery::SourceAddress;
use rms::storage::{
    choose_range, configured_amount, directory_size, etag, file_head, parse_range,
    recover_import, recover_trash, relative_source_path, validate_import_id,
    validate_relative_path, RecoveryAction, StorageUse,
};
use rms::text::utf8_size;
use rms::tools::{
    add_output, count_output, diagnostic_tail, finish_tool, is_allowed_variable, transcode_args,
    watch_tool, OutputKind, ToolRun, ToolSample, MAX_TOOL_OUTPUT_DEPTH,
};
use rms::uploads::{
    collect_text, finish_file, finish_text, format_from_file_name, normalize_file_name,
    parse_idempotency_key, read_mapping, receive_chunk, recording_name, validate_magic,
    UploadDeadline, UploadFields, UploadProgress, UploadedFile,
};
use rms::web_viewer::{plan_build, Args, Profile};

#[test]
fn rejects_traversal_filenames() {
    assert!(normalize_file_name("../escape.rrd").is_err());
    assert!(normalize_file_name("nested/file.rrd").is_err());
    assert!(normalize_file_name("nested\\file.rrd").is_err());
    assert_eq!(normalize_file_name("CON.rrd").unwrap(), "CON.rrd");
    assert_eq!(normalize_file_name("capture.rrd. ").unwrap(), "capture.rrd.");
    assert_eq!(normalize_file_name("로봇 기록.rrd").unwrap(), "로봇 기록.rrd");
    assert_eq!(relative_source_path("safe-id"), "imports/safe-id/source/upload.bin");
}

#[test]
fn recognizes_supported_formats_without_relabeling_video() {
    assert_eq!(format_from_file_name("capture.rrd").unwrap().1, "rrd");
    assert_eq!(format_from_file_name("capture.zip").unwrap().1, "ros2-bag-zip");
    assert_eq!(format_from_file_name("capture.mov").unwrap().1, "video");
    assert_eq!(format_from_file_name("capture.webm").unwrap().1, "video");
}

#[test]
fn extension_and_video_magic_must_agree() {
    let error = validate_video_magic(b"not a video at all", "mp4").unwrap_err();
    assert_eq!(error.code(), ImportErrorCode::ValidationFailed);
}

#[test]
fn loopback_hosts_allow_any_port_but_reject_rebinding_names() {
    for host in ["127.0.0.1:8080", "localhost:4173", "[::1]:8080"] {
        assert!(host_is_allowed(&Some(host.as_bytes().to_vec()), ""), "{host}");
    }
    assert!(!host_is_allowed(&Some(b"attacker.example:8080".to_vec()), ""));
}

#[test]
fn import_admission_wait_is_bounded_by_the_upload_deadline() {
    let deadline = UploadDeadline { overall_ms: 10, idle_timeout_ms: 10 };
    assert_eq!(deadline.next_deadline(0), 10);
    assert_eq!(deadline.next_deadline(7), 10);
    let patient = UploadDeadline { overall_ms: 1_000, idle_timeout_ms: 30 };
    assert_eq!(patient.next_deadline(100), 130);
}

#[test]
fn hosts_are_configured_by_list() {
    assert_eq!(configured_values(" A.example , ,b"), vec!["a.example".to_owned(), "b".to_owned()]);
    assert!(host_is_allowed(&Some(b"Rms.Local".to_vec()), "rms.local"));
    assert!(!host_is_allowed(&Some(b"127.0.0.1/x".to_vec()), ""));
    assert!(!host_is_allowed(&None, ""));
    assert_eq!(
        allowed_origin(&Some(b"http://localhost:4173".to_vec()), "").unwrap().as_deref(),
        Some("http://localhost:4173")
    );
    assert!(allowed_origin(&Some(b"http://evil.example".to_vec()), "").is_err());
    assert_eq!(allowed_origin(&None, "").unwrap(), None);
}

#[test]
fn only_local_requests_pass() {
    let head = |origin: Option<&str>, is_preflight: bool| RequestHead {
        host: Some(b"localhost:8080".to_vec()),
        origin: origin.map(|o| o.as_bytes().to_vec()),
        is_preflight,
    };
    assert!(matches!(validate_request(&head(None, false), "", ""), Gate::Forward(None)));
    assert!(matches!(validate_request(&head(None, true), "", ""), Gate::Forbidden(_)));
    assert!(matches!(
        validate_request(&head(Some("http://localhost:4173"), true), "", ""),
        Gate::Preflight(_)
    ));
    assert!(matches!(
        validate_request(&head(Some("http://evil.example"), false), "", ""),
        Gate::Forbidden(_)
    ));
    let headers = preflight_headers("http://localhost:4173");
    assert_eq!(headers.get("access-control-max-age").unwrap(), "600");
    assert_eq!(headers.get("vary").unwrap(), "Origin");
    assert!(check_bind_address(SourceAddress::V4 { a: 127, b: 0, c: 0, d: 1 }).is_ok());
    assert!(check_bind_address(SourceAddress::V4 { a: 0, b: 0, c: 0, d: 0 }).is_err());
    assert!(check_bind_address(SourceAddress::V6 { high: 0, low: 1 }).is_ok());
}

#[test]
fn reservations_stay_within_the_quota() {
    let mut storage = StorageUse::new(90, 100);
    assert!(storage.reserve_bytes(10));
    assert!(!storage.reserve_bytes(1));
    storage.release_bytes(5);
    assert!(storage.reserve(5).is_ok());
    assert!(storage.reserve(1).is_err());
}

#[test]
fn ranges_lie_within_the_file() {
    assert_eq!(parse_range("bytes=0-9", 100), Some((0, 9)));
    assert_eq!(parse_range("bytes=90-", 100), Some((90, 99)));
    assert_eq!(parse_range("bytes=-10", 100), Some((90, 99)));
    assert_eq!(parse_range("bytes=100-", 100), None);
    assert_eq!(parse_range("lines=0-9", 100), None);
    assert_eq!(etag("ab"), "\"sha256:ab\"");
    let range = choose_range(&Some(b"bytes=10-19".to_vec()), &None, "ab", 100);
    let head = file_head(range, 100, "ab", true);
    assert_eq!(head.status, 206);
    assert_eq!(head.content_range.as_deref(), Some("bytes 10-19/100"));
    assert_eq!(head.content_length, 10);
    let whole = choose_range(&Some(b"bytes=10-19".to_vec()), &Some(b"\"other\"".to_vec()), "ab", 100);
    assert_eq!(file_head(whole, 100, "ab", false).status, 200);
}

#[test]
fn import_paths_stay_below_the_root() {
    assert!(validate_import_id("recording-import-1"));
    assert!(!validate_import_id("../x"));
    assert!(!validate_import_id(""));
    assert!(validate_relative_path("imports/a/source/upload.bin"));
    assert!(!validate_relative_path("/etc/passwd"));
    assert!(!validate_relative_path("imports/../x"));
    assert_eq!(recover_trash(true, false), RecoveryAction::Restore);
    assert_eq!(recover_trash(false, false), RecoveryAction::Remove);
    assert_eq!(recover_import(true), RecoveryAction::Keep);
    assert_eq!(directory_size(&vec![1, 2, 3]), Some(6));
    assert_eq!(directory_size(&vec![u64::MAX, 1]), None);
    assert_eq!(configured_amount(&Some("12".to_owned()), 7), 12);
    assert_eq!(configured_amount(&Some("0".to_owned()), 7), 7);
    assert_eq!(configured_amount(&None, 7), 7);
}

fn received(chunks: &[&[u8]], file_name: &str) -> Result<UploadedFile, ApiError> {
    let mut progress = UploadProgress::new();
    for chunk in chunks {
        receive_chunk(&mut progress, chunk, 1_000)?;
    }
    let (format, label, content_type) = format_from_file_name(file_name)?;
    finish_file(
        progress,
        file_name.to_owned(),
        format,
        label.to_owned(),
        content_type.to_owned(),
        "imports/i/source/upload.bin".to_owned(),
    )
}

#[test]
fn uploads_hold_the_digest_of_what_arrived() {
    let file = received(&[b"RRF2", b"", b"rest of it"], "a.rrd").unwrap();
    assert_eq!(file.size_bytes, 14);
    assert_eq!(file.sha256, hex_sha256(b"RRF2rest of it"));
    assert_eq!(file.format_label, "rrd");
    assert_eq!(file.relative_path, "imports/i/source/upload.bin");
    let empty = received(&[b""], "a.rrd").unwrap_err();
    assert_eq!(empty.message, "The uploaded file is empty.");
    assert!(received(&[b"nope"], "a.rrd").is_err());
}

#[test]
fn digests_do_not_depend_on_the_pieces() {
    let digest = FileDigest::new().take_in(b"a").unwrap().take_in(b"bc").unwrap();
    assert_eq!(digest.size_bytes(), 3);
    assert_eq!(
        digest.finish(),
        "ba7816bf8f01cfea414140de5dae2223b00361a396177a9cb410ff61f20015ad"
    );
    assert_eq!(
        FileDigest::new().finish(),
        "e3b0c44298fc1c149afbf4c8996fb92427ae41e4649b934ca495991b7852b855"
    );
}

#[test]
fn mappings_are_json_objects() {
    let mut fields = UploadFields::new();
    read_mapping(&mut fields, " { \"timeColumn\" : \"t\" } ").unwrap();
    assert_eq!(fields.mapping.as_deref(), Some(b"{\"timeColumn\":\"t\"}".as_slice()));
    for refused in ["[1]", "\"text\"", "{\"a\":", ""] {
        let error = read_mapping(&mut fields, refused).unwrap_err();
        assert_eq!(error.message, "mapping must be a valid JSON object.");
        assert!(fields.mapping.is_some());
    }
}

#[test]
fn uploads_are_checked_as_they_arrive() {
    let mut progress = UploadProgress::new();
    receive_chunk(&mut progress, b"RRF2rest", 10).unwrap();
    assert!(receive_chunk(&mut progress, b"toolong", 10).is_err());
    assert!(validate_magic(ImportFormat::Rrd, "a.rrd", b"RRF2").is_ok());
    assert!(validate_magic(ImportFormat::Rrd, "a.rrd", b"nope").is_err());
    let mut text = Vec::new();
    collect_text(&mut text, "기록".as_bytes(), 6).unwrap();
    assert_eq!(finish_text(&text).unwrap(), "기록");
    assert!(collect_text(&mut text, b"x", 6).is_err());
    assert!(finish_text(&vec![0xff]).is_err());
    assert_eq!(parse_idempotency_key(&Some(b"key-1".to_vec())).unwrap().as_deref(), Some("key-1"));
    assert!(parse_idempotency_key(&Some(vec![0x80])).is_err());
    assert_eq!(recording_name("capture.rrd"), "capture");
    assert_eq!(utf8_size("기"), 3);
}

#[test]
fn digests_and_encodings_are_the_standard_ones() {
    assert_eq!(
        hex_sha256(b"abc"),
        "ba7816bf8f01cfea414140de5dae2223b00361a396177a9cb410ff61f20015ad"
    );
    assert_eq!(stable_asset_id("p", "x"), stable_asset_id("p", "x"));
    assert_ne!(stable_asset_id("p", "x"), stable_asset_id("p", "y"));
    assert_eq!(decode_exact("-_8", 2).as_deref(), Some([0xfb, 0xff].as_slice()));
    assert_eq!(decode_exact("not base64!", 8), None);
    assert_eq!(decode_exact("AQI", 3), None);
}

#[test]
fn videos_say_when_they_were_transcoded() {
    assert!(needs_transcoding("webm"));
    assert!(!needs_transcoding("mp4"));
    assert_eq!(video_entity_path("Front cam.mp4"), "video/Front_cam");
    let hints = video_hints("webm", "/video/x".to_owned());
    assert_eq!(hints.warnings, vec!["Transcoded webm video to MP4 for Rerun playback".to_owned()]);
    assert!(validate_video_magic(b"\x00\x00\x00\x18ftypisom", "mp4").is_ok());
    assert!(validate_extension(ImportFormat::Csv, "csv").is_ok());
    assert!(validate_extension(ImportFormat::Csv, "rrd").is_err());
    assert!(validate_original_file_name("a/b.csv").is_err());
}

#[test]
fn output_budgets_stop_at_their_limit() {
    let mut budget = OutputBudget::new(10);
    assert!(budget.accept(10));
    budget.record(10, 10);
    assert!(!budget.accept(1));
    let full = encode_error("no space", budget.limit_exceeded, 10);
    assert_eq!(full.code(), ImportErrorCode::ResourceLimitExceeded);
    assert_eq!(full.internal_detail(), "RRD encoder exceeded 10 bytes: no space");
    let broken = encode_error("bad schema", false, 10);
    assert_eq!(broken.code(), ImportErrorCode::ConversionFailed);
    assert_eq!(broken.internal_detail(), "RRD encoder failed: bad schema");
}

#[test]
fn tool_arguments_are_passed_without_a_shell() {
    let args = transcode_args("$(touch owned).webm", "out.mp4", 1_000);
    assert!(args.iter().any(|a| a == "$(touch owned).webm"));
    assert_eq!(args.last().map(String::as_str), Some("out.mp4"));
    assert!(is_allowed_variable("PATH"));
    assert!(!is_allowed_variable("RMS_EDGE_BEARER_TOKEN_FILE"));
}

#[test]
fn unbounded_tools_are_stopped() {
    let run = ToolRun {
        executable: "ffmpeg".to_owned(),
        user_reason: "The video could not be converted.".to_owned(),
        diagnostic_path: "/tmp/log".to_owned(),
        output_path: "/tmp/out".to_owned(),
        max_output_bytes: 100,
        timeout_ms: 1_000,
    };
    let sample = |elapsed_ms: u64, produced: u64| ToolSample {
        exited: false,
        cancelled: false,
        diagnostics: Ok(0),
        produced: Ok(produced),
        elapsed_ms,
    };
    assert!(!watch_tool(&run, sample(10, 50)).unwrap());
    assert_eq!(
        watch_tool(&run, sample(10, 101)).unwrap_err().code(),
        ImportErrorCode::ResourceLimitExceeded
    );
    assert!(watch_tool(&run, sample(1_001, 50)).is_err());
    assert_eq!(add_output(1, 2, "x").unwrap(), 3);
    assert!(add_output(u64::MAX, 1, "x").is_err());
    assert!(count_output(OutputKind::Link, 0, 0, "x").is_err());
    assert!(count_output(OutputKind::Directory, MAX_TOOL_OUTPUT_DEPTH + 1, 0, "x").is_err());
    assert_eq!(diagnostic_tail(b"short"), b"short");
}

#[test]
fn failed_tools_are_reported_with_what_they_printed() {
    let run = ToolRun {
        executable: "ffmpeg".to_owned(),
        user_reason: "The video could not be converted.".to_owned(),
        diagnostic_path: "/tmp/log".to_owned(),
        output_path: "/tmp/out".to_owned(),
        max_output_bytes: 100,
        timeout_ms: 1_000,
    };
    assert!(finish_tool(&run, Ok(0), Ok(50), true, "exit status: 0", b"").is_ok());
    let error = finish_tool(&run, Ok(4), Ok(50), false, "exit status: 1", b"bad\xff").unwrap_err();
    assert_eq!(error.code(), ImportErrorCode::ConversionFailed);
    assert_eq!(error.user_reason(), "The video could not be converted.");
    assert_eq!(
        error.internal_detail(),
        "ffmpeg exited with exit status: 1; diagnostic tail:\nbad\u{fffd}"
    );
}

#[test]
fn exactly_one_profile_is_built() {
    let args = |release: bool, debug: bool, package: &str| Args {
        release,
        debug,
        debug_symbols: false,
        build_dir: None,
        package: package.to_owned(),
        out_name: None,
        features: None,
        no_default_features: false,
        timings: false,
    };
    let plan = plan_build(&args(true, false, "re_viewer"), "web_viewer").unwrap();
    assert_eq!(plan.profile, Profile::WebRelease);
    assert_eq!(plan.features, "analytics");
    assert_eq!(plan.build_dir, "web_viewer");
    assert_eq!(plan_build(&args(false, true, "other"), "w").unwrap().features, "");
    assert_eq!(
        plan_build(&args(true, true, "re_viewer"), "w").unwrap_err(),
        "Exactly one of --release or --debug must be set"
    );
}

#[test]
fn cancelled_imports_stop_at_the_next_step() {
    let cancellation = ImportCancellation::new();
    let clone = cancellation.clone();
    assert!(check_cancelled(cancellation.is_cancelled()).is_ok());
    clone.cancel();
    let error = check_cancelled(cancellation.is_cancelled()).unwrap_err();
    assert_eq!(error.code(), ImportErrorCode::Cancelled);
    assert_eq!(error.user_reason(), "The import was cancelled.");
}
