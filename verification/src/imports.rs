//! The life of an import in the catalog: admission, completion, failure and deletion.

use crate::api;
use crate::api::{ApiError, ApiErrorView};
use crate::catalog;
use crate::catalog::{
    Catalog, CatalogView, Marker, StoredImportArtifact, StoredImportArtifactView,
    StoredImportReceipt, StoredImportReceiptView,
};
use crate::domain::{
    DataAssignment, DataAssignmentView, DataSource, DataSourceView, DataVisibility, Device, DeviceAssignmentView, Recording, RecordingImport,
    RecordingImportView, RecordingProjectSnapshot, RecordingProjectSnapshotView, ReplaySession,
    ReplaySessionView, RecordingView, TimelineDescriptor, TimelineDescriptorView, Topic, TopicList, TopicView,
};
use crate::import;
use crate::import::{ImportError, ImportResult, ImportResultView, TimelineKind};
use crate::table;
use crate::table::{copy_all, copy_option, Copied, Table};
use crate::text;
use crate::topics;
use crate::uploads;
use crate::uploads::{UploadFields, UploadFieldsView, UploadedFileView};
use vstd::prelude::*;

verus! {

pub open spec fn import_answer(r: Result<Option<RecordingImport>, ApiError>) -> Result<
    Option<RecordingImportView>,
    ApiErrorView,
> {
    match r {
        Ok(o) => Ok(table::view_option(o)),
        Err(e) => Err(e@),
    }
}

/// The import that an idempotency key already stands for.
pub open spec fn known_import(c: CatalogView, key: Option<Seq<char>>, fingerprint: Seq<char>) -> Result<
    Option<RecordingImportView>,
    ApiErrorView,
> {
    match key {
        None => Ok(None),
        Some(k) => if !c.import_receipts.contains_key(k) {
            Ok(None)
        } else if c.import_receipts[k].fingerprint != fingerprint {
            Err(
                api::conflict(
                    "Idempotency-Key was already used for a different recording import."@,
                ),
            )
        } else if !c.recording_imports.contains_key(c.import_receipts[k].import_id) {
            Err(api::internal("Import idempotency receipt is inconsistent."@))
        } else {
            Ok(Some(c.recording_imports[c.import_receipts[k].import_id]))
        },
    }
}

/// Looks up the import that an idempotency key already stands for.
pub fn idempotent_import(c: &Catalog, key: &Option<String>, fingerprint: &str) -> (r: Result<
    Option<RecordingImport>,
    ApiError,
>)
    ensures
        import_answer(r) == known_import(c@, table::view_option(*key), fingerprint@),
{
    let key = match key {
        None => {
            return Ok(None);
        },
        Some(k) => k,
    };
    let receipt = match c.import_receipts.get(key.as_str()) {
        None => {
            return Ok(None);
        },
        Some(receipt) => receipt,
    };
    if !text::same(receipt.fingerprint.as_str(), fingerprint) {
        return Err(
            ApiError::conflict("Idempotency-Key was already used for a different recording import."),
        );
    }
    match c.recording_imports.get(receipt.import_id.as_str()) {
        Some(i) => Ok(Some(i.copied())),
        None => Err(ApiError::internal("Import idempotency receipt is inconsistent.")),
    }
}

/// What an import was captured for.
#[derive(Debug)]
pub struct PreparedAssignment {
    pub organization_id: String,
    pub data_source_id: String,
    pub project_snapshot: RecordingProjectSnapshot,
    pub topic_ids: Vec<String>,
    pub mapping_version: u64,
}

#[verifier::ext_equal]
pub struct PreparedAssignmentView {
    pub organization_id: Seq<char>,
    pub data_source_id: Seq<char>,
    pub project_snapshot: RecordingProjectSnapshotView,
    pub topic_ids: Seq<Seq<char>>,
    pub mapping_version: u64,
}

impl View for PreparedAssignment {
    type V = PreparedAssignmentView;

    open spec fn view(&self) -> PreparedAssignmentView {
        PreparedAssignmentView {
            organization_id: self.organization_id@,
            data_source_id: self.data_source_id@,
            project_snapshot: self.project_snapshot@,
            topic_ids: table::views(self.topic_ids@),
            mapping_version: self.mapping_version,
        }
    }
}

/// A file data source of a device.
pub open spec fn is_file_source(s: DataSourceView, device: Seq<char>) -> bool {
    s.device_id == device && s.protocol == "file"@
}

/// The data source into which files of a device are imported: its first file source, or a new
/// one under the given identifier.
pub open spec fn file_source(c: CatalogView, device: Seq<char>, id: Seq<char>, now: Seq<char>) -> DataSourceView {
    match table::first_key(c.data_sources, |s: DataSourceView| is_file_source(s, device)) {
        Some(k) => c.data_sources[k],
        None => DataSourceView {
            id,
            integration_id: c.devices[device].integration_id,
            device_id: c.devices[device].id,
            name: c.devices[device].name + " 파일 Import"@,
            protocol: "file"@,
            status: "ready"@,
            live_url: ""@,
            topic_ids: Seq::empty(),
            mapping_version: 1,
            last_data_at: now,
        },
    }
}

pub open spec fn with_source(c: CatalogView, s: DataSourceView) -> CatalogView {
    if c.data_sources.contains_key(s.id) {
        c
    } else {
        CatalogView { data_sources: c.data_sources.insert(s.id, s), ..c }
    }
}

/// The assignment under which a project sees a data source: the first active one, or a new one
/// under the given identifier.
pub open spec fn file_assignment(
    c: CatalogView,
    project: Seq<char>,
    source: Seq<char>,
    id: Seq<char>,
    now: Seq<char>,
) -> DataAssignmentView {
    match catalog::source_assignment_key(c.data_assignments, project, source) {
        Some(k) => c.data_assignments[k],
        None => DataAssignmentView {
            id,
            project_id: c.projects[project].id,
            data_source_id: source,
            visibility: DataVisibility::Operator,
            valid_from: now,
            valid_to: None,
            resource_version: catalog::next_version(c.snapshot_version),
        },
    }
}

pub open spec fn with_assignment(c: CatalogView, a: DataAssignmentView) -> CatalogView {
    if c.data_assignments.contains_key(a.id) {
        c
    } else {
        CatalogView { data_assignments: c.data_assignments.insert(a.id, a), ..c }
    }
}

/// The catalog in which a device has a file source that the project sees.
pub open spec fn with_file_source(
    c: CatalogView,
    project: Seq<char>,
    device: Seq<char>,
    source_id: Seq<char>,
    assignment_id: Seq<char>,
    now: Seq<char>,
) -> CatalogView {
    let source = file_source(c, device, source_id, now);
    let assignment = file_assignment(c, project, source.id, assignment_id, now);
    let changed = with_assignment(with_source(c, source), assignment);
    if c.data_sources.contains_key(source.id) && c.data_assignments.contains_key(assignment.id) {
        changed
    } else {
        catalog::bumped(changed)
    }
}

pub open spec fn prepared_view(
    c: CatalogView,
    project: Seq<char>,
    device: Seq<char>,
    source: DataSourceView,
    assignment: DataAssignmentView,
    now: Seq<char>,
) -> PreparedAssignmentView {
    PreparedAssignmentView {
        organization_id: c.projects[project].organization_id,
        data_source_id: source.id,
        project_snapshot: RecordingProjectSnapshotView {
            project_id: c.projects[project].id,
            project_name: c.projects[project].name,
            captured_at: now,
            device_assignment_id: c.device_assignments[catalog::device_assignment_key(
                c.device_assignments,
                project,
                device,
            )->Some_0].id,
            data_assignment_id: assignment.id,
        },
        topic_ids: source.topic_ids,
        mapping_version: source.mapping_version,
    }
}

/// The catalog and the capture of an import that is admitted.
pub open spec fn prepared(
    c: CatalogView,
    project: Seq<char>,
    device: Seq<char>,
    source: Option<Seq<char>>,
    source_id: Seq<char>,
    assignment_id: Seq<char>,
    now: Seq<char>,
) -> Result<(CatalogView, PreparedAssignmentView), ApiErrorView> {
    match uploads::scope_failure(c, project, device, source) {
        Some(e) => Err(e),
        None => match source {
            Some(s) => Ok(
                (
                    c,
                    prepared_view(
                        c,
                        project,
                        device,
                        c.data_sources[s],
                        c.data_assignments[catalog::source_assignment_key(
                            c.data_assignments,
                            project,
                            s,
                        )->Some_0],
                        now,
                    ),
                ),
            ),
            None => {
                let s = file_source(c, device, source_id, now);
                Ok(
                    (
                        with_file_source(c, project, device, source_id, assignment_id, now),
                        prepared_view(
                            c,
                            project,
                            device,
                            s,
                            file_assignment(c, project, s.id, assignment_id, now),
                            now,
                        ),
                    ),
                )
            },
        },
    }
}

fn choose_file_source(c: &Catalog, d: &Device, device: &str, id: &str, now: &str) -> (r: DataSource)
    requires
        c@.devices.contains_key(device@),
        d@ == c@.devices[device@],
    ensures
        r@ == file_source(c@, device@, id@, now@),
{
    let ghost p = |s: DataSourceView| is_file_source(s, device@);
    let test = |s: &DataSource| -> (b: bool)
        ensures
            b == is_file_source(s@, device@),
        {
            text::same(s.device_id.as_str(), device) && text::same(s.protocol.as_str(), "file")
        };
    match c.data_sources.find(test, Ghost(p)) {
        Some(i) => c.data_sources.value_at(i).copied(),
        None => {
            let topic_ids: Vec<String> = Vec::new();
            proof {
                assert(table::views(topic_ids@) =~= Seq::<Seq<char>>::empty());
            }
            DataSource {
                id: id.to_owned(),
                integration_id: d.integration_id.clone(),
                device_id: d.id.clone(),
                name: text::line(d.name.as_str()).add(" 파일 Import").done(),
                protocol: "file".to_owned(),
                status: "ready".to_owned(),
                live_url: "".to_owned(),
                topic_ids,
                mapping_version: 1,
                last_data_at: now.to_owned(),
            }
        },
    }
}

fn choose_file_assignment(
    c: &Catalog,
    project: &str,
    project_record_id: &str,
    source: &str,
    id: &str,
    now: &str,
) -> (r: DataAssignment)
    requires
        c@.projects.contains_key(project@),
        project_record_id@ == c@.projects[project@].id,
    ensures
        r@ == file_assignment(c@, project@, source@, id@, now@),
{
    match catalog::find_source_assignment(&c.data_assignments, project, source) {
        Some(i) => c.data_assignments.value_at(i).copied(),
        None => DataAssignment {
            id: id.to_owned(),
            project_id: project_record_id.to_owned(),
            data_source_id: source.to_owned(),
            visibility: DataVisibility::Operator,
            valid_from: now.to_owned(),
            valid_to: None,
            resource_version: catalog::version_after(c.snapshot_version),
        },
    }
}

/// Finds or makes the data source and the assignment that an import goes under.
pub fn prepare_import_assignment(
    c: &mut Catalog,
    project: &str,
    device: &str,
    source: &Option<String>,
    source_id: &str,
    assignment_id: &str,
    now: &str,
) -> (r: Result<PreparedAssignment, ApiError>)
    ensures
        match prepared(
            old(c)@,
            project@,
            device@,
            table::view_option(*source),
            source_id@,
            assignment_id@,
            now@,
        ) {
            Ok((after, p)) => r matches Ok(q) && q@ == p && final(c)@ == after,
            Err(e) => r matches Err(f) && f@ == e && final(c)@ == old(c)@,
        },
{
    match uploads::validate_import_scope(c, project, device, source) {
        Ok(()) => {},
        Err(e) => {
            return Err(e);
        },
    }
    let p = match c.projects.get(project) {
        Some(p) => p.copied(),
        None => {
            return Err(ApiError::not_found("Project", project));
        },
    };
    let d = match c.devices.get(device) {
        Some(d) => d.copied(),
        None => {
            return Err(ApiError::not_found("Device", device));
        },
    };
    let device_assignment_id = match catalog::find_device_assignment(
        &c.device_assignments,
        project,
        device,
    ) {
        Some(i) => c.device_assignments.value_at(i).id.clone(),
        None => {
            return Err(ApiError::conflict("Device must have an active assignment to the Project."));
        },
    };
    let (chosen, assignment) = match source {
        Some(s) => {
            let chosen = match c.data_sources.get(s.as_str()) {
                Some(found) => found.copied(),
                None => {
                    return Err(ApiError::not_found("DataSource", s.as_str()));
                },
            };
            let assignment = match catalog::find_source_assignment(
                &c.data_assignments,
                project,
                s.as_str(),
            ) {
                Some(i) => c.data_assignments.value_at(i).copied(),
                None => {
                    return Err(
                        ApiError::conflict(
                            "DataSource must have an active assignment to the Project.",
                        ),
                    );
                },
            };
            (chosen, assignment)
        },
        None => {
            let chosen = choose_file_source(c, &d, device, source_id, now);
            let assignment = choose_file_assignment(
                c,
                project,
                p.id.as_str(),
                chosen.id.as_str(),
                assignment_id,
                now,
            );
            let new_source = !c.data_sources.contains(chosen.id.as_str());
            let new_assignment = !c.data_assignments.contains(assignment.id.as_str());
            if new_source {
                let _ = c.data_sources.insert(chosen.id.clone(), chosen.copied());
            }
            if new_assignment {
                let _ = c.data_assignments.insert(assignment.id.clone(), assignment.copied());
            }
            if new_source || new_assignment {
                let _ = c.bump_version();
            }
            (chosen, assignment)
        },
    };
    Ok(
        PreparedAssignment {
            organization_id: p.organization_id,
            data_source_id: chosen.id,
            project_snapshot: RecordingProjectSnapshot {
                project_id: p.id,
                project_name: p.name,
                captured_at: now.to_owned(),
                device_assignment_id,
                data_assignment_id: assignment.id,
            },
            topic_ids: chosen.topic_ids,
            mapping_version: chosen.mapping_version,
        },
    )
}

/// Where the source file of an import can be fetched.
pub open spec fn artifact_url(import_id: Seq<char>) -> Seq<char> {
    "/api/v1/recording-imports/"@ + import_id + "/artifact"@
}

/// The record of an import that was just received.
pub open spec fn new_import(
    import_id: Seq<char>,
    project: Seq<char>,
    device: Seq<char>,
    source: Seq<char>,
    file: UploadedFileView,
    now: Seq<char>,
    version: u64,
) -> RecordingImportView {
    RecordingImportView {
        id: import_id,
        project_id: project,
        device_id: device,
        data_source_id: source,
        file_name: file.file_name,
        format: file.format_label,
        status: "processing"@,
        progress_percent: 10,
        size_bytes: file.size_bytes,
        source_sha256: Some(file.sha256),
        artifact_url: Some(artifact_url(import_id)),
        recording_id: None,
        failure_reason: None,
        warnings: Seq::empty(),
        created_at: now,
        updated_at: now,
        resource_version: version,
    }
}

pub open spec fn new_artifact(p: PreparedAssignmentView, file: UploadedFileView) -> StoredImportArtifactView {
    StoredImportArtifactView {
        source_relative_path: file.relative_path,
        rrd_relative_path: None,
        source_content_type: file.content_type,
        internal_detail: None,
        organization_id: p.organization_id,
        project_snapshot: p.project_snapshot,
        topic_ids: p.topic_ids,
        mapping_version: p.mapping_version,
    }
}

/// The catalog that knows a new import.
pub open spec fn with_import(
    c: CatalogView,
    import: RecordingImportView,
    artifact: StoredImportArtifactView,
    key: Option<Seq<char>>,
    fingerprint: Seq<char>,
) -> CatalogView {
    CatalogView {
        recording_imports: c.recording_imports.insert(import.id, import),
        import_artifacts: c.import_artifacts.insert(import.id, artifact),
        import_cancellations: c.import_cancellations.insert(import.id, ()),
        import_receipts: match key {
            Some(k) => c.import_receipts.insert(
                k,
                StoredImportReceiptView { fingerprint, import_id: import.id },
            ),
            None => c.import_receipts,
        },
        ..catalog::bumped(c)
    }
}

pub open spec fn upload_fingerprint(fields: UploadFieldsView) -> Seq<char> {
    crate::hashing::sha256_hex(
        uploads::import_identity(
            fields.project_id->Some_0,
            fields.device_id->Some_0,
            fields.data_source_id,
            fields.file->Some_0.format_label,
            fields.mapping,
            fields.file->Some_0.sha256,
        ),
    )
}

/// The import that an upload whose fields have all arrived already became, if there is one.
pub fn find_upload(c: &Catalog, fields: &UploadFields, key: &Option<String>) -> (r: Result<
    Option<RecordingImport>,
    ApiError,
>)
    ensures
        import_answer(r) == match uploads::settle_failure(fields@) {
            Some(e) => Err(e),
            None => known_import(c@, table::view_option(*key), upload_fingerprint(fields@)),
        },
{
    match uploads::settle_upload(fields) {
        Ok(()) => {},
        Err(e) => {
            return Err(e);
        },
    }
    match (&fields.project_id, &fields.device_id, &fields.file) {
        (Some(project), Some(device), Some(file)) => {
            let fingerprint = uploads::import_fingerprint(
                project.as_str(),
                device.as_str(),
                &fields.data_source_id,
                file.format_label.as_str(),
                &fields.mapping,
                file.sha256.as_str(),
            );
            idempotent_import(c, key, fingerprint.as_str())
        },
        _ => Err(ApiError::bad_request("file is required.")),
    }
}

/// The identifiers that a new import may need.
#[derive(Debug)]
pub struct ImportIds {
    pub import_id: String,
    pub source_id: String,
    pub assignment_id: String,
}

/// The catalog and the answer after an upload; the flag says whether a new import began.
pub open spec fn registered(
    c: CatalogView,
    fields: UploadFieldsView,
    key: Option<Seq<char>>,
    import_id: Seq<char>,
    source_id: Seq<char>,
    assignment_id: Seq<char>,
    now: Seq<char>,
) -> Result<(CatalogView, RecordingImportView, bool), ApiErrorView> {
    let fingerprint = upload_fingerprint(fields);
    match uploads::settle_failure(fields) {
        Some(e) => Err(e),
        None => match known_import(c, key, fingerprint) {
            Err(e) => Err(e),
            Ok(Some(existing)) => Ok((c, existing, false)),
            Ok(None) => {
                let project = fields.project_id->Some_0;
                let device = fields.device_id->Some_0;
                let file = fields.file->Some_0;
                match prepared(
                    c,
                    project,
                    device,
                    fields.data_source_id,
                    source_id,
                    assignment_id,
                    now,
                ) {
                    Err(e) => Err(e),
                    Ok((after, p)) => {
                        let import = new_import(
                            import_id,
                            project,
                            device,
                            p.data_source_id,
                            file,
                            now,
                            catalog::next_version(after.snapshot_version),
                        );
                        Ok(
                            (
                                with_import(after, import, new_artifact(p, file), key, fingerprint),
                                import,
                                true,
                            ),
                        )
                    },
                }
            },
        },
    }
}

/// Makes an upload whose fields have all arrived an import, or finds the import that the same
/// upload already became.
pub fn register_import(
    c: &mut Catalog,
    fields: &UploadFields,
    key: &Option<String>,
    ids: &ImportIds,
    now: &str,
) -> (r: Result<(RecordingImport, bool), ApiError>)
    ensures
        match registered(
            old(c)@,
            fields@,
            table::view_option(*key),
            ids.import_id@,
            ids.source_id@,
            ids.assignment_id@,
            now@,
        ) {
            Ok((after, import, fresh)) => r matches Ok(found) && found.0@ == import && found.1
                == fresh && final(c)@ == after,
            Err(e) => r matches Err(f) && f@ == e && final(c)@ == old(c)@,
        },
{
    match uploads::settle_upload(fields) {
        Ok(()) => {},
        Err(e) => {
            return Err(e);
        },
    }
    let (project, device, file) = match (&fields.project_id, &fields.device_id, &fields.file) {
        (Some(p), Some(d), Some(f)) => (p, d, f),
        _ => {
            return Err(ApiError::bad_request("file is required."));
        },
    };
    let fingerprint = uploads::import_fingerprint(
        project.as_str(),
        device.as_str(),
        &fields.data_source_id,
        file.format_label.as_str(),
        &fields.mapping,
        file.sha256.as_str(),
    );
    match idempotent_import(c, key, fingerprint.as_str()) {
        Err(e) => {
            return Err(e);
        },
        Ok(Some(existing)) => {
            return Ok((existing, false));
        },
        Ok(None) => {},
    }
    let assignment = match prepare_import_assignment(
        c,
        project.as_str(),
        device.as_str(),
        &fields.data_source_id,
        ids.source_id.as_str(),
        ids.assignment_id.as_str(),
        now,
    ) {
        Ok(p) => p,
        Err(e) => {
            return Err(e);
        },
    };
    let ghost after = c@;
    let version: u64 = c.bump_version();
    let warnings: Vec<String> = Vec::new();
    proof {
        assert(table::views(warnings@) =~= Seq::<Seq<char>>::empty());
    }
    let import = RecordingImport {
        id: ids.import_id.clone(),
        project_id: project.clone(),
        device_id: device.clone(),
        data_source_id: assignment.data_source_id.clone(),
        file_name: file.file_name.clone(),
        format: file.format_label.clone(),
        status: "processing".to_owned(),
        progress_percent: 10,
        size_bytes: file.size_bytes,
        source_sha256: Some(file.sha256.clone()),
        artifact_url: Some(
            text::line("/api/v1/recording-imports/").add(ids.import_id.as_str()).add(
                "/artifact",
            ).done(),
        ),
        recording_id: None,
        failure_reason: None,
        warnings,
        created_at: now.to_owned(),
        updated_at: now.to_owned(),
        resource_version: version,
    };
    let artifact = StoredImportArtifact {
        source_relative_path: file.relative_path.clone(),
        rrd_relative_path: None,
        source_content_type: file.content_type.clone(),
        internal_detail: None,
        organization_id: assignment.organization_id,
        project_snapshot: assignment.project_snapshot,
        topic_ids: assignment.topic_ids,
        mapping_version: assignment.mapping_version,
    };
    let _ = c.recording_imports.insert(ids.import_id.clone(), import.copied());
    let _ = c.import_artifacts.insert(ids.import_id.clone(), artifact);
    let _ = c.import_cancellations.insert(ids.import_id.clone(), Marker {  });
    match key {
        Some(k) => {
            let _ = c.import_receipts.insert(
                k.clone(),
                StoredImportReceipt { fingerprint, import_id: ids.import_id.clone() },
            );
        },
        None => {},
    }
    Ok((import, true))
}

/// A repeated upload under one idempotency key returns the import that the first one became,
/// and changes nothing.
pub proof fn law_repeated_upload_returns_the_import(
    c: CatalogView,
    fields: UploadFieldsView,
    key: Seq<char>,
    import_id: Seq<char>,
    source_id: Seq<char>,
    assignment_id: Seq<char>,
    now: Seq<char>,
    import_id2: Seq<char>,
    source_id2: Seq<char>,
    assignment_id2: Seq<char>,
    now2: Seq<char>,
)
    requires
        registered(c, fields, Some(key), import_id, source_id, assignment_id, now) is Ok,
    ensures
        ({
            let (after, import, fresh) = registered(
                c,
                fields,
                Some(key),
                import_id,
                source_id,
                assignment_id,
                now,
            )->Ok_0;
            registered(after, fields, Some(key), import_id2, source_id2, assignment_id2, now2)
                == Ok::<(CatalogView, RecordingImportView, bool), ApiErrorView>(
                (after, import, false),
            )
        }),
{
}

pub open spec fn of_project(i: RecordingImportView, project: Option<Seq<char>>) -> bool {
    match project {
        Some(p) => i.project_id == p,
        None => true,
    }
}

/// The imports, of one project or of all, in the order of their identifiers.
pub fn list_imports(c: &Catalog, project: &Option<String>) -> (r: Vec<RecordingImport>)
    ensures
        table::views(r@) == table::values_where(
            c@.recording_imports,
            |i: RecordingImportView| of_project(i, table::view_option(*project)),
        ),
{
    let ghost p = |i: RecordingImportView| of_project(i, table::view_option(*project));
    let test = |i: &RecordingImport| -> (b: bool)
        ensures
            b == of_project(i@, table::view_option(*project)),
        {
            match project {
                Some(wanted) => text::same(i.project_id.as_str(), wanted.as_str()),
                None => true,
            }
        };
    c.recording_imports.select(test, Ghost(p))
}

pub fn get_import(c: &Catalog, import_id: &str) -> (r: Result<RecordingImport, ApiError>)
    ensures
        api::answer_view(r) == if c@.recording_imports.contains_key(import_id@) {
            Ok::<RecordingImportView, ApiErrorView>(c@.recording_imports[import_id@])
        } else {
            Err(api::not_found("RecordingImport"@, import_id@))
        },
{
    match c.recording_imports.get(import_id) {
        Some(i) => Ok(i.copied()),
        None => Err(ApiError::not_found("RecordingImport", import_id)),
    }
}

pub open spec fn open_replay_of(s: ReplaySessionView, recording: Seq<char>) -> bool {
    s.recording_id == recording && s.status == "open"@
}

/// Whether a recording is being replayed.
pub open spec fn replay_is_open(c: CatalogView, recording: Option<Seq<char>>) -> bool {
    match recording {
        Some(id) => table::any_value(
            c.replay_sessions,
            |s: ReplaySessionView| open_replay_of(s, id),
        ),
        None => false,
    }
}

pub fn has_open_replay(c: &Catalog, recording: &Option<String>) -> (r: bool)
    ensures
        r == replay_is_open(c@, table::view_option(*recording)),
{
    match recording {
        Some(id) => {
            let ghost p = |s: ReplaySessionView| open_replay_of(s, id@);
            let test = |s: &ReplaySession| -> (b: bool)
                ensures
                    b == open_replay_of(s@, id@),
                {
                    text::same(s.recording_id.as_str(), id.as_str()) && text::same(
                        s.status.as_str(),
                        "open",
                    )
                };
            c.replay_sessions.find(test, Ghost(p)).is_some()
        },
        None => false,
    }
}

pub open spec fn is_running(status: Seq<char>) -> bool {
    status == "uploading"@ || status == "processing"@
}

/// What deleting an import comes to.
#[derive(Debug)]
pub enum DeletionStep {
    /// The import was running and is now cancelled; this is how it was before.
    Cancelled(RecordingImport),
    /// The import is over: its files and records can go.
    Remove,
}

/// How an import that was cancelled is recorded.
pub open spec fn cancelled_import(i: RecordingImportView, now: Seq<char>, version: u64) -> RecordingImportView {
    RecordingImportView { status: "cancelled"@, updated_at: now, resource_version: version, ..i }
}

pub open spec fn with_cancelled(c: CatalogView, id: Seq<char>, now: Seq<char>) -> CatalogView {
    CatalogView {
        recording_imports: c.recording_imports.insert(
            id,
            cancelled_import(
                c.recording_imports[id],
                now,
                catalog::next_version(c.snapshot_version),
            ),
        ),
        ..catalog::bumped(c)
    }
}

/// Why an import cannot be deleted at the moment.
pub open spec fn deletion_failure(c: CatalogView, id: Seq<char>) -> Option<ApiErrorView> {
    if !c.recording_imports.contains_key(id) {
        Some(api::not_found("RecordingImport"@, id))
    } else if replay_is_open(c, c.recording_imports[id].recording_id) {
        Some(api::conflict("Close the active ReplaySession before deleting this import."@))
    } else if !is_running(c.recording_imports[id].status) && c.import_cancellations.contains_key(
        id,
    ) {
        Some(
            api::conflict(
                "The import worker is still finalizing cancellation. Try again shortly."@,
            ),
        )
    } else {
        None
    }
}

/// Begins to delete an import: cancels it where it still runs.
pub fn begin_deletion(c: &mut Catalog, import_id: &str, now: &str) -> (r: Result<
    DeletionStep,
    ApiError,
>)
    ensures
        match deletion_failure(old(c)@, import_id@) {
            Some(e) => (r matches Err(f) && f@ == e) && final(c)@ == old(c)@,
            None => if is_running(old(c)@.recording_imports[import_id@].status) {
                (r matches Ok(DeletionStep::Cancelled(previous)) && previous@
                    == old(c)@.recording_imports[import_id@]) && final(c)@ == with_cancelled(
                    old(c)@,
                    import_id@,
                    now@,
                )
            } else {
                r matches Ok(DeletionStep::Remove) && final(c)@ == old(c)@
            },
        },
{
    let import = match c.recording_imports.get(import_id) {
        Some(i) => i.copied(),
        None => {
            return Err(ApiError::not_found("RecordingImport", import_id));
        },
    };
    if has_open_replay(c, &import.recording_id) {
        return Err(
            ApiError::conflict("Close the active ReplaySession before deleting this import."),
        );
    }
    if text::same(import.status.as_str(), "uploading") || text::same(
        import.status.as_str(),
        "processing",
    ) {
        let version: u64 = c.bump_version();
        let mut current = import.copied();
        current.status = "cancelled".to_owned();
        current.updated_at = now.to_owned();
        current.resource_version = version;
        let _ = c.recording_imports.insert(import_id.to_owned(), current);
        return Ok(DeletionStep::Cancelled(import));
    }
    if c.import_cancellations.contains(import_id) {
        return Err(
            ApiError::conflict(
                "The import worker is still finalizing cancellation. Try again shortly.",
            ),
        );
    }
    Ok(DeletionStep::Remove)
}

/// The catalog in which an import is again as it was.
pub open spec fn with_uncancelled(
    c: CatalogView,
    id: Seq<char>,
    previous: RecordingImportView,
    version: u64,
) -> CatalogView {
    CatalogView {
        recording_imports: c.recording_imports.insert(id, previous),
        snapshot_version: version,
        ..c
    }
}

/// Takes a cancellation back that could not be made durable.
pub fn undo_cancellation(
    c: &mut Catalog,
    import_id: &str,
    previous: RecordingImport,
    previous_version: u64,
) -> (r: ApiError)
    ensures
        final(c)@ == with_uncancelled(old(c)@, import_id@, previous@, previous_version),
        r@ == api::internal("Import cancellation could not be persisted."@),
{
    let _ = c.recording_imports.insert(import_id.to_owned(), previous);
    c.snapshot_version = previous_version;
    ApiError::internal("Import cancellation could not be persisted.")
}

/// A cancellation that is taken back leaves the catalog as it was.
pub proof fn law_undone_cancellation_restores_the_catalog(c: CatalogView, id: Seq<char>, now: Seq<char>)
    requires
        c.recording_imports.contains_key(id),
    ensures
        with_uncancelled(
            with_cancelled(c, id, now),
            id,
            c.recording_imports[id],
            c.snapshot_version,
        ) == c,
{
    let after = with_uncancelled(
        with_cancelled(c, id, now),
        id,
        c.recording_imports[id],
        c.snapshot_version,
    );
    assert(after.recording_imports =~= c.recording_imports);
    assert(after =~= c);
}

/// Why the files and records of an import cannot go.
pub open spec fn removal_failure(c: CatalogView, id: Seq<char>) -> Option<ApiErrorView> {
    if !c.recording_imports.contains_key(id) {
        Some(api::not_found("RecordingImport"@, id))
    } else if c.import_cancellations.contains_key(id) {
        Some(api::conflict("The import worker is still finalizing. Try again shortly."@))
    } else if replay_is_open(c, c.recording_imports[id].recording_id) {
        Some(api::conflict("Close the active ReplaySession before deleting this import."@))
    } else {
        None
    }
}

/// Checks that the files and records of an import can go.
pub fn check_removal(c: &Catalog, import_id: &str) -> (r: Result<(), ApiError>)
    ensures
        crate::discovery_rules::checked(r, removal_failure(c@, import_id@)),
{
    let import = match c.recording_imports.get(import_id) {
        Some(i) => i,
        None => {
            return Err(ApiError::not_found("RecordingImport", import_id));
        },
    };
    if c.import_cancellations.contains(import_id) {
        return Err(
            ApiError::conflict("The import worker is still finalizing. Try again shortly."),
        );
    }
    if has_open_replay(c, &import.recording_id) {
        return Err(
            ApiError::conflict("Close the active ReplaySession before deleting this import."),
        );
    }
    Ok(())
}

pub open spec fn receipt_of(r: StoredImportReceiptView, import: Seq<char>) -> bool {
    r.import_id == import
}

pub open spec fn removed_at<W>(m: Map<Seq<char>, W>, key: Option<Seq<char>>) -> Map<Seq<char>, W> {
    match key {
        Some(k) => m.remove(k),
        None => m,
    }
}

pub open spec fn value_at<W>(m: Map<Seq<char>, W>, key: Option<Seq<char>>) -> Option<W> {
    match key {
        Some(k) => if m.contains_key(k) {
            Some(m[k])
        } else {
            None
        },
        None => None,
    }
}

/// The catalog without an import, its recording and its receipts.
pub open spec fn without_import(c: CatalogView, id: Seq<char>) -> CatalogView {
    let recording = c.recording_imports[id].recording_id;
    CatalogView {
        recording_imports: c.recording_imports.remove(id),
        import_artifacts: c.import_artifacts.remove(id),
        recordings: removed_at(c.recordings, recording),
        topics_by_recording: removed_at(c.topics_by_recording, recording),
        recording_artifacts: removed_at(c.recording_artifacts, recording),
        import_receipts: table::without(
            c.import_receipts,
            |r: StoredImportReceiptView| receipt_of(r, id),
        ),
        ..catalog::bumped(c)
    }
}

/// What was taken out of the catalog with an import.
#[derive(Debug)]
pub struct RemovedImport {
    pub import: RecordingImport,
    pub artifact: Option<StoredImportArtifact>,
    pub recording: Option<Recording>,
    pub topics: Option<TopicList>,
    pub relative_path: Option<String>,
    pub receipts: Table<StoredImportReceipt>,
    pub snapshot_version: u64,
}

#[verifier::ext_equal]
pub struct RemovedImportView {
    pub import: RecordingImportView,
    pub artifact: Option<StoredImportArtifactView>,
    pub recording: Option<RecordingView>,
    pub topics: Option<Seq<TopicView>>,
    pub relative_path: Option<Seq<char>>,
    pub receipts: Map<Seq<char>, StoredImportReceiptView>,
    pub snapshot_version: u64,
}

impl View for RemovedImport {
    type V = RemovedImportView;

    open spec fn view(&self) -> RemovedImportView {
        RemovedImportView {
            import: self.import@,
            artifact: table::view_option(self.artifact),
            recording: table::view_option(self.recording),
            topics: table::view_option(self.topics),
            relative_path: table::view_option(self.relative_path),
            receipts: self.receipts@,
            snapshot_version: self.snapshot_version,
        }
    }
}

/// What goes out of the catalog with an import.
pub open spec fn removal(c: CatalogView, id: Seq<char>) -> RemovedImportView {
    let recording = c.recording_imports[id].recording_id;
    RemovedImportView {
        import: c.recording_imports[id],
        artifact: value_at(c.import_artifacts, Some(id)),
        recording: value_at(c.recordings, recording),
        topics: value_at(c.topics_by_recording, recording),
        relative_path: value_at(c.recording_artifacts, recording),
        receipts: table::without(
            c.import_receipts,
            |r: StoredImportReceiptView| !receipt_of(r, id),
        ),
        snapshot_version: c.snapshot_version,
    }
}

fn remove_option<V: View>(t: &mut Table<V>, key: &Option<String>) -> (r: Option<V>)
    ensures
        final(t)@ == removed_at(old(t)@, table::view_option(*key)),
        table::view_option(r) == value_at(old(t)@, table::view_option(*key)),
{
    match key {
        Some(k) => t.remove(k.as_str()),
        None => None,
    }
}

/// Takes an import with all that belongs to it out of the catalog.
pub fn remove_import(c: &mut Catalog, import_id: &str) -> (r: Result<RemovedImport, ApiError>)
    ensures
        if old(c)@.recording_imports.contains_key(import_id@) {
            (r matches Ok(removed) && removed@ == removal(old(c)@, import_id@)) && final(c)@
                == without_import(old(c)@, import_id@)
        } else {
            (r matches Err(e) && e@ == api::not_found("RecordingImport"@, import_id@)) && final(c)@
                == old(c)@
        },
{
    let snapshot_version: u64 = c.snapshot_version;
    let ghost start = c@;
    let import = match c.recording_imports.remove(import_id) {
        Some(i) => i,
        None => {
            proof {
                assert(c@.recording_imports =~= start.recording_imports);
                assert(c@ =~= start);
            }
            return Err(ApiError::not_found("RecordingImport", import_id));
        },
    };
    let artifact = c.import_artifacts.remove(import_id);
    let recording = remove_option(&mut c.recordings, &import.recording_id);
    let topics = remove_option(&mut c.topics_by_recording, &import.recording_id);
    let relative_path = remove_option(&mut c.recording_artifacts, &import.recording_id);
    let mut receipts = c.import_receipts.copied();
    let belongs = |s: &StoredImportReceipt| -> (b: bool)
        ensures
            b == receipt_of(s@, import_id@),
        {
            text::same(s.import_id.as_str(), import_id)
        };
    let differs = |s: &StoredImportReceipt| -> (b: bool)
        ensures
            b == !receipt_of(s@, import_id@),
        {
            !text::same(s.import_id.as_str(), import_id)
        };
    c.import_receipts.remove_where(
        belongs,
        Ghost(|s: StoredImportReceiptView| receipt_of(s, import_id@)),
    );
    receipts.remove_where(differs, Ghost(|s: StoredImportReceiptView| !receipt_of(s, import_id@)));
    let _ = c.bump_version();
    Ok(RemovedImport { import, artifact, recording, topics, relative_path, receipts, snapshot_version })
}

pub open spec fn put_back<W>(m: Map<Seq<char>, W>, key: Option<Seq<char>>, value: Option<W>) -> Map<
    Seq<char>,
    W,
> {
    match (key, value) {
        (Some(k), Some(v)) => m.insert(k, v),
        _ => m,
    }
}

/// The catalog into which a removed import has come back.
pub open spec fn with_restored(c: CatalogView, id: Seq<char>, removed: RemovedImportView) -> CatalogView {
    let recording = removed.import.recording_id;
    CatalogView {
        recording_imports: c.recording_imports.insert(id, removed.import),
        import_artifacts: put_back(c.import_artifacts, Some(id), removed.artifact),
        recordings: put_back(
            c.recordings,
            match removed.recording {
                Some(r) => Some(r.id),
                None => None,
            },
            removed.recording,
        ),
        topics_by_recording: put_back(c.topics_by_recording, recording, removed.topics),
        recording_artifacts: put_back(c.recording_artifacts, recording, removed.relative_path),
        import_receipts: c.import_receipts.union_prefer_right(removed.receipts),
        snapshot_version: removed.snapshot_version,
        ..c
    }
}

fn insert_option<V: View>(t: &mut Table<V>, key: &Option<String>, value: Option<V>)
    ensures
        final(t)@ == put_back(old(t)@, table::view_option(*key), table::view_option(value)),
{
    match (key, value) {
        (Some(k), Some(v)) => {
            let _ = t.insert(k.clone(), v);
        },
        _ => {},
    }
}

/// Puts a removed import back whose removal could not be made durable.
pub fn restore_import(c: &mut Catalog, import_id: &str, removed: RemovedImport) -> (r: ApiError)
    ensures
        final(c)@ == with_restored(old(c)@, import_id@, removed@),
        r@ == api::internal("Import deletion could not be persisted."@),
{
    let ghost before = c@;
    let ghost gone = removed@;
    let recording_id = copy_option(&removed.import.recording_id);
    let record_key = match &removed.recording {
        Some(r) => Some(r.id.clone()),
        None => None,
    };
    let import_key = Some(import_id.to_owned());
    let _ = c.recording_imports.insert(import_id.to_owned(), removed.import);
    insert_option(&mut c.import_artifacts, &import_key, removed.artifact);
    insert_option(&mut c.recordings, &record_key, removed.recording);
    insert_option(&mut c.topics_by_recording, &recording_id, removed.topics);
    insert_option(&mut c.recording_artifacts, &recording_id, removed.relative_path);
    let n: usize = removed.receipts.len();
    let mut i: usize = 0;
    let ghost items = removed.receipts.items();
    let ghost start = c@;
    proof {
        assert(start.import_receipts =~= start.import_receipts.union_prefer_right(
            table::items_map(items.take(0)),
        ));
        table::lemma_items_all(items.take(0));
    }
    while i < n
        invariant
            i <= n,
            n == items.len(),
            items == removed.receipts.items(),
            table::keys_ascend(items),
            c@ == (CatalogView {
                import_receipts: start.import_receipts.union_prefer_right(
                    table::items_map(items.take(i as int)),
                ),
                ..start
            }),
        decreases n - i,
    {
        let key = removed.receipts.key_at(i).clone();
        let value = removed.receipts.value_at(i).copied();
        let _ = c.import_receipts.insert(key, value);
        proof {
            table::lemma_items_step(items, i as int);
            assert(c@.import_receipts =~= start.import_receipts.union_prefer_right(
                table::items_map(items.take(i + 1)),
            ));
        }
        i = i + 1;
    }
    proof {
        assert(items.take(n as int) =~= items);
    }
    c.snapshot_version = removed.snapshot_version;
    ApiError::internal("Import deletion could not be persisted.")
}

/// An import that is put back after its removal leaves the catalog as it was, where a recording
/// stands under its own identifier.
pub proof fn law_restored_import_restores_the_catalog(c: CatalogView, id: Seq<char>)
    requires
        c.recording_imports.contains_key(id),
        removal(c, id).recording is Some ==> Some(removal(c, id).recording->Some_0.id)
            == c.recording_imports[id].recording_id,
    ensures
        with_restored(without_import(c, id), id, removal(c, id)) == c,
{
    let after = with_restored(without_import(c, id), id, removal(c, id));
    assert(after.recording_imports =~= c.recording_imports);
    assert(after.import_artifacts =~= c.import_artifacts);
    assert(after.recordings =~= c.recordings);
    assert(after.topics_by_recording =~= c.topics_by_recording);
    assert(after.recording_artifacts =~= c.recording_artifacts);
    assert(after.import_receipts =~= c.import_receipts);
    assert(after =~= c);
}

/// Where the source file of an import is kept, and its digest.
pub open spec fn source_file(c: CatalogView, id: Seq<char>) -> Result<
    (StoredImportArtifactView, Seq<char>),
    ApiErrorView,
> {
    if !c.recording_imports.contains_key(id) {
        Err(api::not_found("RecordingImport"@, id))
    } else if c.recording_imports[id].status == "cancelled"@ {
        Err(api::gone("The cancelled upload artifact is unavailable."@))
    } else if !c.import_artifacts.contains_key(id) {
        Err(api::not_found("ImportArtifact"@, id))
    } else {
        match c.recording_imports[id].source_sha256 {
            Some(digest) => Ok((c.import_artifacts[id], digest)),
            None => Err(api::conflict("Import upload is not complete."@)),
        }
    }
}

/// Looks up the source file of an import.
pub fn open_source_artifact(c: &Catalog, import_id: &str) -> (r: Result<
    (StoredImportArtifact, String),
    ApiError,
>)
    ensures
        match r {
            Ok((artifact, digest)) => source_file(c@, import_id@) == Ok::<
                (StoredImportArtifactView, Seq<char>),
                ApiErrorView,
            >((artifact@, digest@)),
            Err(e) => source_file(c@, import_id@) == Err::<
                (StoredImportArtifactView, Seq<char>),
                ApiErrorView,
            >(e@),
        },
{
    let import = match c.recording_imports.get(import_id) {
        Some(i) => i,
        None => {
            return Err(ApiError::not_found("RecordingImport", import_id));
        },
    };
    if text::same(import.status.as_str(), "cancelled") {
        return Err(ApiError::gone("The cancelled upload artifact is unavailable."));
    }
    let artifact = match c.import_artifacts.get(import_id) {
        Some(a) => a.copied(),
        None => {
            return Err(ApiError::not_found("ImportArtifact", import_id));
        },
    };
    match &import.source_sha256 {
        Some(digest) => Ok((artifact, digest.clone())),
        None => Err(ApiError::conflict("Import upload is not complete.")),
    }
}

/// Whether an import still runs at the version that its worker started with.
pub open spec fn is_current(c: CatalogView, id: Seq<char>, version: u64) -> bool {
    c.recording_imports.contains_key(id) && c.recording_imports[id].status == "processing"@
        && c.recording_imports[id].resource_version == version
}

pub open spec fn failed_import(
    i: RecordingImportView,
    reason: Seq<char>,
    now: Seq<char>,
    version: u64,
) -> RecordingImportView {
    RecordingImportView {
        status: "failed"@,
        progress_percent: 100,
        failure_reason: Some(reason),
        updated_at: now,
        resource_version: version,
        ..i
    }
}

/// The catalog after an import has failed.
pub open spec fn with_failure(
    c: CatalogView,
    id: Seq<char>,
    version: u64,
    reason: Seq<char>,
    detail: Seq<char>,
    now: Seq<char>,
) -> CatalogView {
    if !is_current(c, id, version) {
        c
    } else {
        CatalogView {
            recording_imports: c.recording_imports.insert(
                id,
                failed_import(
                    c.recording_imports[id],
                    reason,
                    now,
                    catalog::next_version(c.snapshot_version),
                ),
            ),
            import_artifacts: if c.import_artifacts.contains_key(id) {
                c.import_artifacts.insert(
                    id,
                    StoredImportArtifactView {
                        internal_detail: Some(detail),
                        ..c.import_artifacts[id]
                    },
                )
            } else {
                c.import_artifacts
            },
            ..catalog::bumped(c)
        }
    }
}

/// Records that an import has failed, unless it is no longer the one that its worker ran for.
pub fn finish_import_failure(
    c: &mut Catalog,
    import_id: &str,
    expected_version: u64,
    reason: &str,
    detail: &str,
    now: &str,
) -> (changed: bool)
    ensures
        changed == is_current(old(c)@, import_id@, expected_version),
        final(c)@ == with_failure(old(c)@, import_id@, expected_version, reason@, detail@, now@),
{
    let current = match c.recording_imports.get(import_id) {
        Some(i) => i.copied(),
        None => {
            return false;
        },
    };
    if !text::same(current.status.as_str(), "processing") || current.resource_version
        != expected_version {
        return false;
    }
    let version: u64 = c.bump_version();
    let mut failed = current;
    failed.status = "failed".to_owned();
    failed.progress_percent = 100;
    failed.failure_reason = Some(reason.to_owned());
    failed.updated_at = now.to_owned();
    failed.resource_version = version;
    let _ = c.recording_imports.insert(import_id.to_owned(), failed);
    let artifact = match c.import_artifacts.get(import_id) {
        Some(a) => Some(a.copied()),
        None => None,
    };
    match artifact {
        Some(mut a) => {
            a.internal_detail = Some(detail.to_owned());
            let _ = c.import_artifacts.insert(import_id.to_owned(), a);
        },
        None => {},
    }
    true
}

pub open spec fn is_cancelled(c: CatalogView, id: Seq<char>) -> bool {
    c.recording_imports.contains_key(id) && c.recording_imports[id].status == "cancelled"@
}

/// Whether the files of an import are to be removed when its worker ends.
pub fn cleanup_needed(c: &Catalog, import_id: &str) -> (r: bool)
    ensures
        r == is_cancelled(c@, import_id@),
{
    match c.recording_imports.get(import_id) {
        Some(i) => text::same(i.status.as_str(), "cancelled"),
        None => false,
    }
}

/// The catalog after the worker of an import has ended; `cleaned` says that the files were
/// removed because the import had been cancelled.
pub open spec fn with_finished_worker(c: CatalogView, id: Seq<char>, cleaned: bool, now: Seq<char>) -> CatalogView {
    let idle = CatalogView { import_cancellations: c.import_cancellations.remove(id), ..c };
    if cleaned && is_cancelled(c, id) {
        CatalogView {
            recording_imports: c.recording_imports.insert(
                id,
                RecordingImportView {
                    progress_percent: 100,
                    artifact_url: None,
                    updated_at: now,
                    resource_version: catalog::next_version(c.snapshot_version),
                    ..c.recording_imports[id]
                },
            ),
            import_artifacts: c.import_artifacts.remove(id),
            ..catalog::bumped(idle)
        }
    } else {
        idle
    }
}

/// Records that the worker of an import has ended.
pub fn finalize_worker(c: &mut Catalog, import_id: &str, cleaned: bool, now: &str)
    ensures
        final(c)@ == with_finished_worker(old(c)@, import_id@, cleaned, now@),
{
    let _ = c.import_cancellations.remove(import_id);
    if !cleaned || !cleanup_needed(c, import_id) {
        return;
    }
    let version: u64 = c.bump_version();
    let current = match c.recording_imports.get(import_id) {
        Some(i) => Some(i.copied()),
        None => None,
    };
    match current {
        Some(mut import) => {
            import.progress_percent = 100;
            import.artifact_url = None;
            import.updated_at = now.to_owned();
            import.resource_version = version;
            let _ = c.recording_imports.insert(import_id.to_owned(), import);
        },
        None => {},
    }
    let _ = c.import_artifacts.remove(import_id);
}

/// The paths under which an import offers data: its entities, or else its topics.
pub open spec fn offered_paths(result: ImportResultView) -> Seq<Seq<char>> {
    if result.entity_paths.len() == 0 {
        result.topics
    } else {
        result.entity_paths
    }
}

pub open spec fn is_named(path: Seq<char>) -> bool {
    text::trim(path).len() > 0
}

/// Whether an import offers data under some name.
pub open spec fn offers_topics(result: ImportResultView) -> bool {
    exists|i: int| 0 <= i < offered_paths(result).len() && is_named(#[trigger] offered_paths(result)[i])
}

/// The named paths of a sequence, once each.
pub open spec fn named_paths(paths: Seq<Seq<char>>) -> Set<Seq<char>> {
    Set::new(|p: Seq<char>| is_named(p) && paths.contains(p))
}

pub open spec fn ascend(paths: Seq<Seq<char>>) -> bool {
    forall|i: int, j: int|
        0 <= i < j < paths.len() ==> text::less(#[trigger] paths[i], #[trigger] paths[j])
}

/// The named paths under which an import offers data, in order and once each.
pub open spec fn path_list(result: ImportResultView) -> Seq<Seq<char>> {
    let named = named_paths(offered_paths(result));
    crate::rrd_verify::keys_of(Map::new(|p: Seq<char>| named.contains(p), |p: Seq<char>| ()))
}

/// The named paths under which an import offers data, in order and once each.
pub fn imported_paths(result: &ImportResult) -> (r: Vec<String>)
    ensures
        table::views(r@) == path_list(result@),
        ascend(table::views(r@)),
        table::views(r@).to_set() == named_paths(offered_paths(result@)),
        (r@.len() > 0) == offers_topics(result@),
{
    let offered = if result.entity_paths.len() == 0 {
        &result.topics
    } else {
        &result.entity_paths
    };
    let ghost paths = table::views(offered@);
    let mut found: Table<Marker> = Table::new();
    let mut i: usize = 0;
    while i < offered.len()
        invariant
            i <= offered@.len(),
            paths == table::views(offered@),
            found@.dom() =~= named_paths(paths.take(i as int)),
        decreases offered@.len() - i,
    {
        let path = &offered[i];
        proof {
            assert(path@ == paths[i as int]);
            let a = paths.take(i as int);
            let b = paths.take(i + 1);
            assert(b =~= a.push(path@));
            assert forall|p: Seq<char>| b.contains(p) <==> a.contains(p) || p == path@ by {
                if b.contains(p) {
                    let j = choose|j: int| 0 <= j < b.len() && b[j] == p;
                    if j < i {
                        assert(a[j] == p);
                    }
                }
                if a.contains(p) {
                    let j = choose|j: int| 0 <= j < a.len() && a[j] == p;
                    assert(b[j] == p);
                }
                assert(b[i as int] == path@);
            }
        }
        if !text::is_blank(path.as_str()) {
            let _ = found.insert(path.clone(), Marker {  });
        }
        i = i + 1;
    }
    proof {
        assert(paths.take(offered@.len() as int) =~= paths);
    }
    let ghost items = table::items_of(found@);
    let r = crate::rrd_verify::list_keys(&found);
    proof {
        let named = named_paths(offered_paths(result@));
        assert(found@ =~= Map::new(|p: Seq<char>| named.contains(p), |p: Seq<char>| ()));
    }
    proof {
        let v = table::views(r@);
        table::lemma_items_all(items);
        assert forall|i: int, j: int| 0 <= i < j < v.len() implies text::less(
            #[trigger] v[i],
            #[trigger] v[j],
        ) by {
            assert(v[i] == items[i].0 && v[j] == items[j].0);
        }
        assert forall|p: Seq<char>| v.to_set().contains(p) <==> named_paths(paths).contains(p) by {
            if v.contains(p) {
                let j = choose|j: int| 0 <= j < v.len() && v[j] == p;
                assert(items[j].0 == p);
                assert(found@.dom().contains(p));
            }
            if named_paths(paths).contains(p) {
                assert(found@.contains_key(p));
                let j = table::key_index(items, p);
                assert(items[j].0 == p);
                assert(v[j] == p);
            }
        }
        assert(v.to_set() =~= named_paths(paths));
        if r@.len() > 0 {
            assert(v.to_set().contains(v[0]));
            assert(paths.contains(v[0]));
        }
        if offers_topics(result@) {
            let i = choose|i: int| 0 <= i < paths.len() && is_named(#[trigger] paths[i]);
            assert(paths.contains(paths[i]));
            assert(v.to_set().contains(paths[i]));
        }
    }
    r
}

/// Whether the assignments that an import was captured under are still in force.
pub open spec fn capture_holds(c: CatalogView, id: Seq<char>) -> bool {
    let import = c.recording_imports[id];
    let snapshot = c.import_artifacts[id].project_snapshot;
    c.device_assignments.contains_key(snapshot.device_assignment_id) && catalog::assigned_device(
        c.device_assignments[snapshot.device_assignment_id],
        import.project_id,
        import.device_id,
    ) && c.data_assignments.contains_key(snapshot.data_assignment_id) && catalog::assigned_source(
        c.data_assignments[snapshot.data_assignment_id],
        import.project_id,
        import.data_source_id,
    )
}

fn capture_is_active(c: &Catalog, import: &RecordingImport, stored: &StoredImportArtifact) -> (r: bool)
    ensures
        forall|id: Seq<char>|
            c@.recording_imports.contains_key(id) && #[trigger] c@.recording_imports[id] == import@
                && c@.import_artifacts[id] == stored@ ==> r == capture_holds(c@, id),
{
    let device = match c.device_assignments.get(
        stored.project_snapshot.device_assignment_id.as_str(),
    ) {
        Some(a) => text::same(a.project_id.as_str(), import.project_id.as_str()) && text::same(
            a.device_id.as_str(),
            import.device_id.as_str(),
        ) && a.valid_to.is_none(),
        None => false,
    };
    let data = match c.data_assignments.get(stored.project_snapshot.data_assignment_id.as_str()) {
        Some(a) => text::same(a.project_id.as_str(), import.project_id.as_str()) && text::same(
            a.data_source_id.as_str(),
            import.data_source_id.as_str(),
        ) && a.valid_to.is_none(),
        None => false,
    };
    device && data
}

/// The name of a kind of timeline.
pub open spec fn kind_name(kind: TimelineKind) -> Seq<char> {
    match kind {
        TimelineKind::Sequence => "sequence"@,
        TimelineKind::Timestamp => "timestamp"@,
        TimelineKind::Duration => "duration"@,
    }
}

pub open spec fn stored_timeline(t: import::TimelineDescriptorView) -> TimelineDescriptorView {
    TimelineDescriptorView {
        name: t.name,
        kind: kind_name(t.kind),
        start: t.start,
        end: t.end,
        duration_seconds: t.duration_seconds,
        fps: t.fps,
    }
}

pub open spec fn stored_timelines(s: Seq<import::TimelineDescriptorView>) -> Seq<
    TimelineDescriptorView,
> {
    s.map_values(|t: import::TimelineDescriptorView| stored_timeline(t))
}

/// The timelines of an import as a recording keeps them.
pub fn recording_timelines(timelines: &Vec<import::TimelineDescriptor>) -> (r: Vec<
    TimelineDescriptor,
>)
    ensures
        table::views(r@) == stored_timelines(table::views(timelines@)),
{
    let ghost given = table::views(timelines@);
    let mut r: Vec<TimelineDescriptor> = Vec::new();
    let mut i: usize = 0;
    while i < timelines.len()
        invariant
            i <= timelines@.len(),
            given == table::views(timelines@),
            r@.len() == i,
            forall|j: int|
                0 <= j < i ==> (#[trigger] table::views(r@)[j]) == stored_timeline(given[j]),
        decreases timelines@.len() - i,
    {
        let t = &timelines[i];
        assert(t@ == given[i as int]);
        let kind = match t.kind {
            TimelineKind::Sequence => "sequence",
            TimelineKind::Timestamp => "timestamp",
            TimelineKind::Duration => "duration",
        };
        let one = TimelineDescriptor {
            name: t.name.clone(),
            kind: kind.to_owned(),
            start: t.start.clone(),
            end: t.end.clone(),
            duration_seconds: t.duration_seconds,
            fps: t.fps,
        };
        proof {
            table::lemma_views_push(r@, one);
        }
        r.push(one);
        i = i + 1;
    }
    proof {
        assert(table::views(r@) =~= stored_timelines(given));
    }
    r
}

pub open spec fn topic_ids(topics: Seq<TopicView>) -> Seq<Seq<char>> {
    topics.map_values(|t: TopicView| t.id)
}

pub(crate) fn ids_of(topics: &Vec<Topic>) -> (r: Vec<String>)
    ensures
        table::views(r@) == topic_ids(table::views(topics@)),
{
    let ghost given = table::views(topics@);
    let mut r: Vec<String> = Vec::new();
    let mut i: usize = 0;
    while i < topics.len()
        invariant
            i <= topics@.len(),
            given == table::views(topics@),
            r@.len() == i,
            forall|j: int| 0 <= j < i ==> (#[trigger] table::views(r@)[j]) == given[j].id,
        decreases topics@.len() - i,
    {
        assert(topics@[i as int]@ == given[i as int]);
        let id = topics[i].id.clone();
        proof {
            table::lemma_views_push(r@, id);
        }
        r.push(id);
        i = i + 1;
    }
    proof {
        assert(table::views(r@) =~= topic_ids(given));
    }
    r
}

/// Whether two lists of texts are the same.
pub fn same_texts(a: &Vec<String>, b: &Vec<String>) -> (r: bool)
    ensures
        r == (table::views(a@) == table::views(b@)),
{
    let ghost x = table::views(a@);
    let ghost y = table::views(b@);
    if a.len() != b.len() {
        assert(x.len() != y.len());
        return false;
    }
    let mut i: usize = 0;
    while i < a.len()
        invariant
            i <= a@.len(),
            a@.len() == b@.len(),
            x == table::views(a@),
            y == table::views(b@),
            forall|j: int| 0 <= j < i ==> x[j] == y[j],
        decreases a@.len() - i,
    {
        assert(a@[i as int]@ == x[i as int] && b@[i as int]@ == y[i as int]);
        if !text::same(a[i].as_str(), b[i].as_str()) {
            return false;
        }
        i = i + 1;
    }
    assert(x =~= y);
    true
}

/// The topics whose identifiers are among `ids`.
pub open spec fn topics_among(topics: Seq<TopicView>, ids: Seq<Seq<char>>) -> Seq<TopicView> {
    topics.filter(|t: TopicView| ids.contains(t.id))
}

fn select_topics(topics: &Vec<Topic>, ids: &Vec<String>) -> (r: Vec<Topic>)
    ensures
        table::views(r@) == topics_among(table::views(topics@), table::views(ids@)),
{
    let ghost given = table::views(topics@);
    let ghost wanted = table::views(ids@);
    let ghost p = |t: TopicView| wanted.contains(t.id);
    let mut r: Vec<Topic> = Vec::new();
    let mut i: usize = 0;
    proof {
        reveal(Seq::filter);
        assert(table::views(r@) =~= given.take(0).filter(p));
    }
    while i < topics.len()
        invariant
            i <= topics@.len(),
            given == table::views(topics@),
            wanted == table::views(ids@),
            p == (|t: TopicView| wanted.contains(t.id)),
            table::views(r@) == given.take(i as int).filter(p),
        decreases topics@.len() - i,
    {
        assert(topics@[i as int]@ == given[i as int]);
        proof {
            reveal(Seq::filter);
            assert(given.take(i + 1).drop_last() =~= given.take(i as int));
        }
        if table::is_listed(ids, topics[i].id.as_str()) {
            let t = topics[i].copied();
            proof {
                table::lemma_views_push(r@, t);
            }
            r.push(t);
        }
        i = i + 1;
    }
    proof {
        assert(given.take(given.len() as int) =~= given);
    }
    r
}

/// The topics that an import brings to its data source.
pub open spec fn imported_topics(
    c: CatalogView,
    id: Seq<char>,
    result: ImportResultView,
    now: Seq<char>,
) -> Seq<TopicView> {
    let source = c.data_sources[c.recording_imports[id].data_source_id];
    topics::brought_topics(
        source.id,
        source.device_id,
        path_list(result),
        result.entity_descriptors,
        now,
    )
}

/// Whether an import brings topics of its own for its data source.
pub open spec fn brings_topics(c: CatalogView, id: Seq<char>, result: ImportResultView) -> bool {
    c.data_sources.contains_key(c.recording_imports[id].data_source_id) && offers_topics(result)
}

/// The identifiers of the topics of a recording.
pub open spec fn recorded_ids(
    c: CatalogView,
    id: Seq<char>,
    result: ImportResultView,
    topics: Seq<TopicView>,
) -> Seq<Seq<char>> {
    let source = c.recording_imports[id].data_source_id;
    if brings_topics(c, id, result) {
        topic_ids(topics)
    } else if c.data_sources.contains_key(source) {
        c.data_sources[source].topic_ids
    } else {
        c.import_artifacts[id].topic_ids
    }
}

/// The topics of a recording.
pub open spec fn recorded_topics(
    c: CatalogView,
    id: Seq<char>,
    result: ImportResultView,
    topics: Seq<TopicView>,
) -> Seq<TopicView> {
    let source = c.recording_imports[id].data_source_id;
    if brings_topics(c, id, result) {
        topics
    } else if c.topics_by_data_source.contains_key(source) {
        topics_among(c.topics_by_data_source[source], recorded_ids(c, id, result, topics))
    } else {
        Seq::empty()
    }
}

/// The data source after an import into it: a changed set of topics is a new version.
pub open spec fn fed_source(s: DataSourceView, ids: Seq<Seq<char>>, now: Seq<char>) -> DataSourceView {
    DataSourceView {
        topic_ids: ids,
        last_data_at: now,
        mapping_version: if s.topic_ids != ids {
            catalog::next_version(s.mapping_version)
        } else {
            s.mapping_version
        },
        ..s
    }
}

pub open spec fn recorded_mapping(
    c: CatalogView,
    id: Seq<char>,
    ids: Seq<Seq<char>>,
    now: Seq<char>,
) -> u64 {
    let source = c.recording_imports[id].data_source_id;
    if c.data_sources.contains_key(source) {
        fed_source(c.data_sources[source], ids, now).mapping_version
    } else {
        c.import_artifacts[id].mapping_version
    }
}

/// The recording that an import became.
pub open spec fn new_recording(
    c: CatalogView,
    id: Seq<char>,
    recording_id: Seq<char>,
    result: ImportResultView,
    ids: Seq<Seq<char>>,
    duration_label: Seq<char>,
    now: Seq<char>,
) -> RecordingView {
    let import = c.recording_imports[id];
    let stored = c.import_artifacts[id];
    RecordingView {
        id: recording_id,
        organization_id: stored.organization_id,
        project_id: import.project_id,
        device_id: import.device_id,
        data_source_id: import.data_source_id,
        name: uploads::recording_title(import.file_name),
        status: "ready"@,
        rrd_url: "/rerun/recordings/"@ + recording_id,
        captured_at: now,
        duration_label,
        timelines: stored_timelines(result.timelines),
        default_timeline: result.default_timeline,
        duration_seconds: result.duration_seconds,
        rrd_version: result.rrd_version,
        footer_verified: result.footer_verified,
        content_sha256: result.content_sha256,
        topic_ids: ids,
        mapping_version: recorded_mapping(c, id, ids, now),
        project_snapshot: stored.project_snapshot,
        resource_version: catalog::next_version(c.snapshot_version),
        manifest_hash: "sha256:"@ + result.content_sha256,
    }
}

/// The catalog after an import has become a recording.
pub open spec fn with_recording(
    c: CatalogView,
    id: Seq<char>,
    output_path: Seq<char>,
    result: ImportResultView,
    topics: Seq<TopicView>,
    recording_id: Seq<char>,
    duration_label: Seq<char>,
    now: Seq<char>,
) -> CatalogView {
    let import = c.recording_imports[id];
    let source = import.data_source_id;
    let ids = recorded_ids(c, id, result, topics);
    CatalogView {
        data_sources: if c.data_sources.contains_key(source) {
            c.data_sources.insert(source, fed_source(c.data_sources[source], ids, now))
        } else {
            c.data_sources
        },
        topics_by_data_source: if brings_topics(c, id, result) {
            c.topics_by_data_source.insert(c.data_sources[source].id, topics)
        } else {
            c.topics_by_data_source
        },
        recording_artifacts: c.recording_artifacts.insert(recording_id, output_path),
        topics_by_recording: c.topics_by_recording.insert(
            recording_id,
            recorded_topics(c, id, result, topics),
        ),
        recordings: c.recordings.insert(
            recording_id,
            new_recording(c, id, recording_id, result, ids, duration_label, now),
        ),
        import_artifacts: c.import_artifacts.insert(
            id,
            StoredImportArtifactView {
                rrd_relative_path: Some(output_path),
                internal_detail: None,
                topic_ids: ids,
                mapping_version: recorded_mapping(c, id, ids, now),
                ..c.import_artifacts[id]
            },
        ),
        recording_imports: c.recording_imports.insert(
            id,
            RecordingImportView {
                status: "ready"@,
                progress_percent: 100,
                recording_id: Some(recording_id),
                failure_reason: None,
                warnings: result.warnings,
                updated_at: now,
                resource_version: catalog::next_version(c.snapshot_version),
                ..import
            },
        ),
        ..catalog::bumped(c)
    }
}

/// What the catalog held before an import became a recording.
#[derive(Debug)]
pub struct CompletedImport {
    pub recording_id: String,
    pub previous: RecordingImport,
    pub previous_artifact: StoredImportArtifact,
    pub previous_source: Option<DataSource>,
    pub previous_topics: Option<TopicList>,
    pub previous_version: u64,
}

#[verifier::ext_equal]
pub struct CompletedImportView {
    pub recording_id: Seq<char>,
    pub previous: RecordingImportView,
    pub previous_artifact: StoredImportArtifactView,
    pub previous_source: Option<DataSourceView>,
    pub previous_topics: Option<Seq<TopicView>>,
    pub previous_version: u64,
}

impl View for CompletedImport {
    type V = CompletedImportView;

    open spec fn view(&self) -> CompletedImportView {
        CompletedImportView {
            recording_id: self.recording_id@,
            previous: self.previous@,
            previous_artifact: self.previous_artifact@,
            previous_source: table::view_option(self.previous_source),
            previous_topics: table::view_option(self.previous_topics),
            previous_version: self.previous_version,
        }
    }
}

pub open spec fn before_completion(c: CatalogView, id: Seq<char>, recording_id: Seq<char>) -> CompletedImportView {
    let source = c.recording_imports[id].data_source_id;
    CompletedImportView {
        recording_id,
        previous: c.recording_imports[id],
        previous_artifact: c.import_artifacts[id],
        previous_source: value_at(c.data_sources, Some(source)),
        previous_topics: value_at(c.topics_by_data_source, Some(source)),
        previous_version: c.snapshot_version,
    }
}

/// What became of an import whose worker has an answer.
#[derive(Debug)]
pub enum ImportOutcome {
    /// The import is over or superseded; the result is dropped.
    Discarded,
    /// The import has failed; the result is dropped.
    Failed,
    /// The import is a recording.
    Committed(CompletedImport),
}

pub open spec fn is_intact(result: ImportResultView, digest: Seq<char>) -> bool {
    result.source_sha256 == digest && result.footer_verified
}

/// What an import result leads to.
pub enum Completion {
    Discard,
    Fail { reason: Seq<char>, detail: Seq<char> },
    Commit,
}

pub open spec fn completion(
    c: CatalogView,
    id: Seq<char>,
    version: u64,
    digest: Seq<char>,
    result: ImportResultView,
) -> Completion {
    if !is_intact(result, digest) {
        Completion::Fail {
            reason: "The converted recording did not pass integrity verification."@,
            detail: "Importer result source hash or footer verification did not match."@,
        }
    } else if !is_current(c, id, version) || !c.import_artifacts.contains_key(id) {
        Completion::Discard
    } else if !capture_holds(c, id) {
        Completion::Fail {
            reason: "Project assignments changed before the import completed."@,
            detail: "The captured DeviceAssignment or DataAssignment is no longer active."@,
        }
    } else {
        Completion::Commit
    }
}

/// The catalog after an import result has come in.
pub open spec fn completed(
    c: CatalogView,
    id: Seq<char>,
    version: u64,
    digest: Seq<char>,
    output_path: Seq<char>,
    result: ImportResultView,
    recording_id: Seq<char>,
    duration_label: Seq<char>,
    now: Seq<char>,
) -> CatalogView {
    match completion(c, id, version, digest, result) {
        Completion::Discard => c,
        Completion::Fail { reason, detail } => with_failure(c, id, version, reason, detail, now),
        Completion::Commit => with_recording(
            c,
            id,
            output_path,
            result,
            imported_topics(c, id, result, now),
            recording_id,
            duration_label,
            now,
        ),
    }
}

/// An import result that comes in changes no recording but its own: neither what is recorded of
/// the others, nor their topics, nor where their files lie.
pub proof fn law_later_imports_keep_earlier_recordings(
    c: CatalogView,
    id: Seq<char>,
    version: u64,
    digest: Seq<char>,
    output_path: Seq<char>,
    result: ImportResultView,
    recording_id: Seq<char>,
    duration_label: Seq<char>,
    now: Seq<char>,
)
    ensures
        ({
            let after = completed(
                c,
                id,
                version,
                digest,
                output_path,
                result,
                recording_id,
                duration_label,
                now,
            );
            &&& after.recordings.remove(recording_id) == c.recordings.remove(recording_id)
            &&& after.topics_by_recording.remove(recording_id) == c.topics_by_recording.remove(
                recording_id,
            )
            &&& after.recording_artifacts.remove(recording_id) == c.recording_artifacts.remove(
                recording_id,
            )
        }),
{
    let after = completed(
        c,
        id,
        version,
        digest,
        output_path,
        result,
        recording_id,
        duration_label,
        now,
    );
    assert(after.recordings.remove(recording_id) =~= c.recordings.remove(recording_id));
    assert(after.topics_by_recording.remove(recording_id) =~= c.topics_by_recording.remove(
        recording_id,
    ));
    assert(after.recording_artifacts.remove(recording_id) =~= c.recording_artifacts.remove(
        recording_id,
    ));
}

pub open spec fn outcome_matches(r: ImportOutcome, kind: Completion, before: CompletedImportView) -> bool {
    match kind {
        Completion::Discard => r is Discarded,
        Completion::Fail { .. } => r is Failed,
        Completion::Commit => r matches ImportOutcome::Committed(done) && done@ == before,
    }
}

/// What a completed import adds to the catalog, apart from its data source.
fn commit_recording(
    c: &mut Catalog,
    import: &RecordingImport,
    stored: &StoredImportArtifact,
    import_id: &str,
    output_path: &str,
    result: &ImportResult,
    ids: &Vec<String>,
    recording_topics: Vec<Topic>,
    mapping_version: u64,
    recording_id: &str,
    duration_label: &str,
    now: &str,
    version: u64,
)
    ensures
        final(c)@ == (CatalogView {
            recording_artifacts: old(c)@.recording_artifacts.insert(recording_id@, output_path@),
            topics_by_recording: old(c)@.topics_by_recording.insert(
                recording_id@,
                table::views(recording_topics@),
            ),
            recordings: old(c)@.recordings.insert(
                recording_id@,
                RecordingView {
                    id: recording_id@,
                    organization_id: stored@.organization_id,
                    project_id: import@.project_id,
                    device_id: import@.device_id,
                    data_source_id: import@.data_source_id,
                    name: uploads::recording_title(import@.file_name),
                    status: "ready"@,
                    rrd_url: "/rerun/recordings/"@ + recording_id@,
                    captured_at: now@,
                    duration_label: duration_label@,
                    timelines: stored_timelines(result@.timelines),
                    default_timeline: result@.default_timeline,
                    duration_seconds: result@.duration_seconds,
                    rrd_version: result@.rrd_version,
                    footer_verified: result@.footer_verified,
                    content_sha256: result@.content_sha256,
                    topic_ids: table::views(ids@),
                    mapping_version,
                    project_snapshot: stored@.project_snapshot,
                    resource_version: version,
                    manifest_hash: "sha256:"@ + result@.content_sha256,
                },
            ),
            import_artifacts: old(c)@.import_artifacts.insert(
                import_id@,
                StoredImportArtifactView {
                    rrd_relative_path: Some(output_path@),
                    internal_detail: None,
                    topic_ids: table::views(ids@),
                    mapping_version,
                    ..stored@
                },
            ),
            recording_imports: old(c)@.recording_imports.insert(
                import_id@,
                RecordingImportView {
                    status: "ready"@,
                    progress_percent: 100,
                    recording_id: Some(recording_id@),
                    failure_reason: None,
                    warnings: result@.warnings,
                    updated_at: now@,
                    resource_version: version,
                    ..import@
                },
            ),
            ..old(c)@
        }),
{
    let recording = Recording {
        id: recording_id.to_owned(),
        organization_id: stored.organization_id.clone(),
        project_id: import.project_id.clone(),
        device_id: import.device_id.clone(),
        data_source_id: import.data_source_id.clone(),
        name: uploads::recording_name(import.file_name.as_str()),
        status: "ready".to_owned(),
        rrd_url: text::line("/rerun/recordings/").add(recording_id).done(),
        captured_at: now.to_owned(),
        duration_label: duration_label.to_owned(),
        timelines: recording_timelines(&result.timelines),
        default_timeline: result.default_timeline.clone(),
        duration_seconds: result.duration_seconds,
        rrd_version: result.rrd_version.clone(),
        footer_verified: result.footer_verified,
        content_sha256: result.content_sha256.clone(),
        topic_ids: copy_all(ids),
        mapping_version,
        project_snapshot: stored.project_snapshot.copied(),
        resource_version: version,
        manifest_hash: text::line("sha256:").add(result.content_sha256.as_str()).done(),
    };
    let _ = c.recording_artifacts.insert(recording_id.to_owned(), output_path.to_owned());
    let _ = c.topics_by_recording.insert(
        recording_id.to_owned(),
        TopicList { topics: recording_topics },
    );
    let _ = c.recordings.insert(recording_id.to_owned(), recording);
    let mut artifact = stored.copied();
    artifact.rrd_relative_path = Some(output_path.to_owned());
    artifact.internal_detail = None;
    artifact.topic_ids = copy_all(ids);
    artifact.mapping_version = mapping_version;
    let _ = c.import_artifacts.insert(import_id.to_owned(), artifact);
    let mut current = import.copied();
    current.status = "ready".to_owned();
    current.progress_percent = 100;
    current.recording_id = Some(recording_id.to_owned());
    current.failure_reason = None;
    current.warnings = copy_all(&result.warnings);
    current.updated_at = now.to_owned();
    current.resource_version = version;
    let _ = c.recording_imports.insert(import_id.to_owned(), current);
}

/// Turns an import into a recording, or records why it failed.
pub fn finish_import_success(
    c: &mut Catalog,
    import_id: &str,
    expected_version: u64,
    expected_source_sha256: &str,
    output_path: &str,
    result: &ImportResult,
    recording_id: &str,
    duration_label: &str,
    now: &str,
) -> (r: ImportOutcome)
    ensures
        outcome_matches(
            r,
            completion(
                old(c)@,
                import_id@,
                expected_version,
                expected_source_sha256@,
                result@,
            ),
            before_completion(old(c)@, import_id@, recording_id@),
        ),
        final(c)@ == completed(
            old(c)@,
            import_id@,
            expected_version,
            expected_source_sha256@,
            output_path@,
            result@,
            recording_id@,
            duration_label@,
            now@,
        ),
{
    let ghost start = c@;
    let ghost id = import_id@;
    if !text::same(result.source_sha256.as_str(), expected_source_sha256)
        || !result.footer_verified {
        let _ = finish_import_failure(
            c,
            import_id,
            expected_version,
            "The converted recording did not pass integrity verification.",
            "Importer result source hash or footer verification did not match.",
            now,
        );
        return ImportOutcome::Failed;
    }
    let import = match c.recording_imports.get(import_id) {
        Some(i) => i.copied(),
        None => {
            return ImportOutcome::Discarded;
        },
    };
    if !text::same(import.status.as_str(), "processing") || import.resource_version
        != expected_version {
        return ImportOutcome::Discarded;
    }
    let stored = match c.import_artifacts.get(import_id) {
        Some(a) => a.copied(),
        None => {
            return ImportOutcome::Discarded;
        },
    };
    let active = capture_is_active(c, &import, &stored);
    assert(c@.recording_imports[id] == import@);
    if !active {
        let _ = finish_import_failure(
            c,
            import_id,
            expected_version,
            "Project assignments changed before the import completed.",
            "The captured DeviceAssignment or DataAssignment is no longer active.",
            now,
        );
        return ImportOutcome::Failed;
    }
    let previous_version: u64 = c.snapshot_version;
    let source_key = import.data_source_id.clone();
    let previous_source = match c.data_sources.get(source_key.as_str()) {
        Some(s) => Some(s.copied()),
        None => None,
    };
    let previous_topics = match c.topics_by_data_source.get(source_key.as_str()) {
        Some(t) => Some(t.copied()),
        None => None,
    };
    let version: u64 = c.bump_version();
    let paths = imported_paths(result);
    let own = previous_source.is_some() && paths.len() > 0;
    let topics = match &previous_source {
        Some(s) => topics::recording_topics(
            s.id.as_str(),
            s.device_id.as_str(),
            &paths,
            &result.entity_descriptors,
            now,
        ),
        None => Vec::new(),
    };
    let ghost brought = imported_topics(start, id, result@, now@);
    assert(own ==> table::views(topics@) == brought);
    let ids = if own {
        ids_of(&topics)
    } else {
        match &previous_source {
            Some(s) => copy_all(&s.topic_ids),
            None => copy_all(&stored.topic_ids),
        }
    };
    let recording_topics = if own {
        copy_all(&topics)
    } else {
        match &previous_topics {
            Some(t) => select_topics(&t.topics, &ids),
            None => {
                let none: Vec<Topic> = Vec::new();
                proof {
                    assert(table::views(none@) =~= Seq::<TopicView>::empty());
                }
                none
            },
        }
    };
    assert(table::views(ids@) == recorded_ids(start, id, result@, brought));
    assert(table::views(recording_topics@) == recorded_topics(
        start,
        id,
        result@,
        brought,
    ));
    let mapping_version: u64 = match &previous_source {
        Some(s) => {
            let mut fed = s.copied();
            if !same_texts(&fed.topic_ids, &ids) {
                fed.mapping_version = catalog::version_after(fed.mapping_version);
            }
            fed.topic_ids = copy_all(&ids);
            fed.last_data_at = now.to_owned();
            let new_version: u64 = fed.mapping_version;
            assert(fed@ =~= fed_source(s@, table::views(ids@), now@));
            if own {
                let _ = c.topics_by_data_source.insert(
                    s.id.clone(),
                    TopicList { topics: copy_all(&topics) },
                );
            }
            let _ = c.data_sources.insert(source_key.clone(), fed);
            new_version
        },
        None => stored.mapping_version,
    };
    commit_recording(
        c,
        &import,
        &stored,
        import_id,
        output_path,
        result,
        &ids,
        recording_topics,
        mapping_version,
        recording_id,
        duration_label,
        now,
        version,
    );
    ImportOutcome::Committed(
        CompletedImport {
            recording_id: recording_id.to_owned(),
            previous: import,
            previous_artifact: stored,
            previous_source,
            previous_topics,
            previous_version,
        },
    )
}

pub open spec fn unpersisted() -> Seq<char> {
    "Import metadata could not be persisted. Try the import again."@
}

/// The catalog in which a completed import is a failed one instead.
pub open spec fn with_reverted(c: CatalogView, id: Seq<char>, done: CompletedImportView, now: Seq<char>) -> CatalogView {
    let source = done.previous.data_source_id;
    let version = catalog::next_version(done.previous_version);
    CatalogView {
        recordings: c.recordings.remove(done.recording_id),
        topics_by_recording: c.topics_by_recording.remove(done.recording_id),
        recording_artifacts: c.recording_artifacts.remove(done.recording_id),
        data_sources: put_back(c.data_sources, Some(source), done.previous_source),
        topics_by_data_source: match done.previous_topics {
            Some(t) => c.topics_by_data_source.insert(source, t),
            None => c.topics_by_data_source.remove(source),
        },
        import_artifacts: c.import_artifacts.insert(id, done.previous_artifact),
        recording_imports: c.recording_imports.insert(
            id,
            failed_import(done.previous, unpersisted(), now, version),
        ),
        snapshot_version: version,
        ..c
    }
}

/// Takes a completed import back whose recording could not be made durable; the import has
/// failed then.
pub fn revert_import_success(c: &mut Catalog, import_id: &str, done: CompletedImport, now: &str)
    ensures
        final(c)@ == with_reverted(old(c)@, import_id@, done@, now@),
{
    let _ = c.recordings.remove(done.recording_id.as_str());
    let _ = c.topics_by_recording.remove(done.recording_id.as_str());
    let _ = c.recording_artifacts.remove(done.recording_id.as_str());
    let source_key = done.previous.data_source_id.clone();
    let key = Some(source_key.clone());
    insert_option(&mut c.data_sources, &key, done.previous_source);
    match done.previous_topics {
        Some(t) => {
            let _ = c.topics_by_data_source.insert(source_key, t);
        },
        None => {
            let _ = c.topics_by_data_source.remove(source_key.as_str());
        },
    }
    let _ = c.import_artifacts.insert(import_id.to_owned(), done.previous_artifact);
    let version: u64 = catalog::version_after(done.previous_version);
    c.snapshot_version = version;
    let mut failed = done.previous;
    failed.status = "failed".to_owned();
    failed.progress_percent = 100;
    failed.failure_reason = Some(
        "Import metadata could not be persisted. Try the import again.".to_owned(),
    );
    failed.updated_at = now.to_owned();
    failed.resource_version = version;
    let _ = c.recording_imports.insert(import_id.to_owned(), failed);
}

/// An import that completed but could not be made durable leaves the catalog as one that failed,
/// where the recording is new and the data source stands under its own identifier.
pub proof fn law_reverted_import_is_a_failed_one(
    c: CatalogView,
    id: Seq<char>,
    output_path: Seq<char>,
    result: ImportResultView,
    topics: Seq<TopicView>,
    recording_id: Seq<char>,
    duration_label: Seq<char>,
    now: Seq<char>,
    later: Seq<char>,
)
    requires
        c.recording_imports.contains_key(id),
        c.import_artifacts.contains_key(id),
        !c.recordings.contains_key(recording_id),
        !c.topics_by_recording.contains_key(recording_id),
        !c.recording_artifacts.contains_key(recording_id),
        c.data_sources.contains_key(c.recording_imports[id].data_source_id)
            ==> c.data_sources[c.recording_imports[id].data_source_id].id
            == c.recording_imports[id].data_source_id,
    ensures
        with_reverted(
            with_recording(
                c,
                id,
                output_path,
                result,
                topics,
                recording_id,
                duration_label,
                now,
            ),
            id,
            before_completion(c, id, recording_id),
            later,
        ) == (CatalogView {
            recording_imports: c.recording_imports.insert(
                id,
                failed_import(
                    c.recording_imports[id],
                    unpersisted(),
                    later,
                    catalog::next_version(c.snapshot_version),
                ),
            ),
            ..catalog::bumped(c)
        }),
{
    let after = with_reverted(
        with_recording(c, id, output_path, result, topics, recording_id, duration_label, now),
        id,
        before_completion(c, id, recording_id),
        later,
    );
    assert(after.recordings =~= c.recordings);
    assert(after.topics_by_recording =~= c.topics_by_recording);
    assert(after.recording_artifacts =~= c.recording_artifacts);
    assert(after.data_sources =~= c.data_sources);
    assert(after.topics_by_data_source =~= c.topics_by_data_source);
    assert(after.import_artifacts =~= c.import_artifacts);
    assert(after.recording_imports =~= c.recording_imports.insert(
        id,
        failed_import(
            c.recording_imports[id],
            unpersisted(),
            later,
            catalog::next_version(c.snapshot_version),
        ),
    ));
}

/// An import that was cancelled, or that is no longer known, never becomes a recording.
pub proof fn law_only_a_running_import_becomes_a_recording(
    c: CatalogView,
    id: Seq<char>,
    version: u64,
    digest: Seq<char>,
    output_path: Seq<char>,
    result: ImportResultView,
    recording_id: Seq<char>,
    duration_label: Seq<char>,
    now: Seq<char>,
)
    requires
        !is_current(c, id, version),
    ensures
        completed(
            c,
            id,
            version,
            digest,
            output_path,
            result,
            recording_id,
            duration_label,
            now,
        ) == c,
{
}

/// What the worker of an import has come to.
#[derive(Debug)]
pub enum WorkerEvent {
    /// There is no place for the recording.
    NoOutputPath(String),
    /// The uploaded file cannot be reached.
    NoSource(String),
    /// The storage quota leaves no room for the recording.
    NoSpace,
    /// The conversion has succeeded.
    Converted(ImportResult),
    /// The conversion was refused.
    Refused(ImportError),
    /// The worker itself has failed.
    Stopped(String),
}

/// What a worker event leads to.
pub open spec fn event_completion(
    c: CatalogView,
    id: Seq<char>,
    version: u64,
    digest: Seq<char>,
    max_output_bytes: u64,
    event: WorkerEvent,
) -> Completion {
    match event {
        WorkerEvent::NoOutputPath(detail) => Completion::Fail {
            reason: "Import storage could not create the RRD artifact."@,
            detail: detail@,
        },
        WorkerEvent::NoSource(detail) => Completion::Fail {
            reason: "The uploaded artifact is unavailable."@,
            detail: detail@,
        },
        WorkerEvent::NoSpace => Completion::Fail {
            reason: "RMS storage does not have enough space for the converted recording."@,
            detail: "The configured RMS storage quota rejected the output reservation."@,
        },
        WorkerEvent::Converted(result) => if result@.size_bytes > max_output_bytes {
            Completion::Fail {
                reason: "The converted recording exceeds the output limit."@,
                detail: "Importer returned an artifact larger than max_output_bytes."@,
            }
        } else {
            completion(c, id, version, digest, result@)
        },
        WorkerEvent::Refused(e) => Completion::Fail {
            reason: e@.user_reason,
            detail: e@.internal_detail,
        },
        WorkerEvent::Stopped(detail) => Completion::Fail {
            reason: "The import worker stopped unexpectedly."@,
            detail: detail@,
        },
    }
}

/// The catalog after a worker event.
pub open spec fn settled(
    c: CatalogView,
    id: Seq<char>,
    version: u64,
    digest: Seq<char>,
    output_path: Seq<char>,
    max_output_bytes: u64,
    event: WorkerEvent,
    recording_id: Seq<char>,
    duration_label: Seq<char>,
    now: Seq<char>,
) -> CatalogView {
    match event_completion(c, id, version, digest, max_output_bytes, event) {
        Completion::Discard => c,
        Completion::Fail { reason, detail } => with_failure(c, id, version, reason, detail, now),
        Completion::Commit => with_recording(
            c,
            id,
            output_path,
            event->Converted_0@,
            imported_topics(c, id, event->Converted_0@, now),
            recording_id,
            duration_label,
            now,
        ),
    }
}

/// Brings the catalog up to date with what the worker of an import has come to.
pub fn settle_worker(
    c: &mut Catalog,
    import_id: &str,
    expected_version: u64,
    source_sha256: &str,
    output_path: &str,
    max_output_bytes: u64,
    event: &WorkerEvent,
    recording_id: &str,
    duration_label: &str,
    now: &str,
) -> (r: ImportOutcome)
    ensures
        outcome_matches(
            r,
            event_completion(
                old(c)@,
                import_id@,
                expected_version,
                source_sha256@,
                max_output_bytes,
                *event,
            ),
            before_completion(old(c)@, import_id@, recording_id@),
        ),
        final(c)@ == settled(
            old(c)@,
            import_id@,
            expected_version,
            source_sha256@,
            output_path@,
            max_output_bytes,
            *event,
            recording_id@,
            duration_label@,
            now@,
        ),
{
    let (reason, detail) = match event {
        WorkerEvent::NoOutputPath(detail) => (
            "Import storage could not create the RRD artifact.",
            detail.as_str(),
        ),
        WorkerEvent::NoSource(detail) => (
            "The uploaded artifact is unavailable.",
            detail.as_str(),
        ),
        WorkerEvent::NoSpace => (
            "RMS storage does not have enough space for the converted recording.",
            "The configured RMS storage quota rejected the output reservation.",
        ),
        WorkerEvent::Converted(result) => {
            if result.size_bytes <= max_output_bytes {
                return finish_import_success(
                    c,
                    import_id,
                    expected_version,
                    source_sha256,
                    output_path,
                    result,
                    recording_id,
                    duration_label,
                    now,
                );
            }
            (
                "The converted recording exceeds the output limit.",
                "Importer returned an artifact larger than max_output_bytes.",
            )
        },
        WorkerEvent::Refused(e) => (e.user_reason(), e.internal_detail()),
        WorkerEvent::Stopped(detail) => (
            "The import worker stopped unexpectedly.",
            detail.as_str(),
        ),
    };
    let _ = finish_import_failure(c, import_id, expected_version, reason, detail, now);
    ImportOutcome::Failed
}

/// A worker that has converted an upload makes a recording of it exactly if the output is within
/// its limit, the converted bytes are those that were uploaded, the footer was verified, the
/// import still runs as its worker found it, and the assignments that it was captured under are
/// still in force.
pub open spec fn may_become_a_recording(
    c: CatalogView,
    id: Seq<char>,
    version: u64,
    digest: Seq<char>,
    max_output_bytes: u64,
    event: WorkerEvent,
) -> bool {
    let result = event->Converted_0@;
    let import = c.recording_imports[id];
    let snapshot = c.import_artifacts[id].project_snapshot;
    let device = c.device_assignments[snapshot.device_assignment_id];
    let source = c.data_assignments[snapshot.data_assignment_id];
    &&& event is Converted
    &&& result.size_bytes <= max_output_bytes
    &&& result.source_sha256 == digest
    &&& result.footer_verified
    &&& c.recording_imports.contains_key(id)
    &&& import.status == "processing"@
    &&& import.resource_version == version
    &&& c.import_artifacts.contains_key(id)
    &&& c.device_assignments.contains_key(snapshot.device_assignment_id)
    &&& device.project_id == import.project_id && device.device_id == import.device_id
        && device.valid_to is None
    &&& c.data_assignments.contains_key(snapshot.data_assignment_id)
    &&& source.project_id == import.project_id && source.data_source_id == import.data_source_id
        && source.valid_to is None
}

/// What may become a recording does: the import is ready, and its recording holds what was
/// converted, for the project, the device and the source of the import. Nothing else does, and
/// the catalog then has no recording more than before.
pub proof fn law_converted_imports_become_recordings(
    c: CatalogView,
    id: Seq<char>,
    version: u64,
    digest: Seq<char>,
    output_path: Seq<char>,
    max_output_bytes: u64,
    event: WorkerEvent,
    recording_id: Seq<char>,
    duration_label: Seq<char>,
    now: Seq<char>,
)
    ensures
        ({
            let after = settled(
                c,
                id,
                version,
                digest,
                output_path,
                max_output_bytes,
                event,
                recording_id,
                duration_label,
                now,
            );
            let before = c.recording_imports[id];
            let import = after.recording_imports[id];
            let recording = after.recordings[recording_id];
            let result = event->Converted_0@;
            if may_become_a_recording(c, id, version, digest, max_output_bytes, event) {
                &&& import.status == "ready"@
                &&& import.progress_percent == 100
                &&& import.recording_id == Some(recording_id)
                &&& import.failure_reason is None
                &&& import.warnings == result.warnings
                &&& import.file_name == before.file_name
                &&& after.recordings.contains_key(recording_id)
                &&& recording.id == recording_id
                &&& recording.status == "ready"@
                &&& recording.project_id == before.project_id
                &&& recording.device_id == before.device_id
                &&& recording.data_source_id == before.data_source_id
                &&& recording.organization_id == c.import_artifacts[id].organization_id
                &&& recording.project_snapshot == c.import_artifacts[id].project_snapshot
                &&& recording.captured_at == now
                &&& recording.default_timeline == result.default_timeline
                &&& recording.content_sha256 == result.content_sha256
                &&& recording.rrd_version == result.rrd_version
                &&& recording.duration_seconds == result.duration_seconds
                &&& recording.footer_verified
                &&& recording.timelines.len() == result.timelines.len()
                &&& forall|k: int|
                    0 <= k < result.timelines.len() ==> (#[trigger] recording.timelines[k]).name
                        == result.timelines[k].name && recording.timelines[k].start
                        == result.timelines[k].start && recording.timelines[k].end
                        == result.timelines[k].end && recording.timelines[k].fps
                        == result.timelines[k].fps && recording.timelines[k].duration_seconds
                        == result.timelines[k].duration_seconds && (recording.timelines[k].kind
                        == "sequence"@ <==> result.timelines[k].kind == TimelineKind::Sequence) && (
                    recording.timelines[k].kind == "timestamp"@ <==> result.timelines[k].kind
                        == TimelineKind::Timestamp) && (recording.timelines[k].kind == "duration"@
                        <==> result.timelines[k].kind == TimelineKind::Duration)
                &&& after.recording_artifacts[recording_id] == output_path
                &&& after.import_artifacts[id].rrd_relative_path == Some(output_path)
                &&& after.import_artifacts[id].source_relative_path
                    == c.import_artifacts[id].source_relative_path
                &&& c.data_sources.contains_key(before.data_source_id)
                    ==> after.data_sources[before.data_source_id].topic_ids == recording.topic_ids
                    && after.data_sources[before.data_source_id].last_data_at == now
                    && after.data_sources[before.data_source_id].mapping_version
                    == recording.mapping_version
            } else {
                &&& after.recordings == c.recordings
                &&& after.recording_artifacts == c.recording_artifacts
                &&& after.topics_by_recording == c.topics_by_recording
                &&& after.topics_by_data_source == c.topics_by_data_source
                &&& after.data_sources == c.data_sources
            }
        }),
{
    reveal_strlit("sequence");
    reveal_strlit("timestamp");
    reveal_strlit("duration");
    assert("sequence"@.len() == 8 && "timestamp"@.len() == 9 && "duration"@.len() == 8);
    assert("sequence"@[0] == 's' && "duration"@[0] == 'd');
    if event is Converted {
        let result = event->Converted_0@;
        assert(forall|k: int|
            0 <= k < result.timelines.len() ==> (#[trigger] stored_timelines(result.timelines)[k])
                == stored_timeline(result.timelines[k]));
    }
}

/// An import that still runs as its worker found it, and does not become a recording, has failed:
/// it says why, and what lies behind it is kept aside. The conversion's own reason is told.
pub proof fn law_other_imports_fail(
    c: CatalogView,
    id: Seq<char>,
    version: u64,
    digest: Seq<char>,
    output_path: Seq<char>,
    max_output_bytes: u64,
    event: WorkerEvent,
    recording_id: Seq<char>,
    duration_label: Seq<char>,
    now: Seq<char>,
)
    requires
        !may_become_a_recording(c, id, version, digest, max_output_bytes, event),
        c.import_artifacts.contains_key(id),
    ensures
        ({
            let after = settled(
                c,
                id,
                version,
                digest,
                output_path,
                max_output_bytes,
                event,
                recording_id,
                duration_label,
                now,
            );
            let import = after.recording_imports[id];
            if c.recording_imports.contains_key(id) && c.recording_imports[id].status
                == "processing"@ && c.recording_imports[id].resource_version == version {
                &&& import.status == "failed"@
                &&& import.progress_percent == 100
                &&& import.failure_reason is Some
                &&& import.updated_at == now
                &&& import.recording_id == c.recording_imports[id].recording_id
                &&& after.import_artifacts[id].internal_detail is Some
                &&& event matches WorkerEvent::Refused(e) ==> import.failure_reason == Some(
                    e@.user_reason,
                ) && after.import_artifacts[id].internal_detail == Some(e@.internal_detail)
                &&& event matches WorkerEvent::Stopped(detail)
                    ==> after.import_artifacts[id].internal_detail == Some(detail@)
                &&& c.snapshot_version < u64::MAX ==> after.snapshot_version == c.snapshot_version
                    + 1
            } else {
                after == c
            }
        }),
{
}

/// A file is taken for an import exactly if the upload is complete, its format is the one that was
/// asked for, only a table comes with a mapping, its project and device exist in one organization,
/// the project has the device, and a named source is a file source of the device that the project
/// has too.
pub proof fn law_uploads_need_an_assigned_device(
    c: CatalogView,
    fields: UploadFieldsView,
    import_id: Seq<char>,
    source_id: Seq<char>,
    assignment_id: Seq<char>,
    now: Seq<char>,
)
    ensures
        registered(c, fields, None, import_id, source_id, assignment_id, now) is Ok <==> {
            let project = fields.project_id->Some_0;
            let device = fields.device_id->Some_0;
            let file = fields.file->Some_0;
            let source = fields.data_source_id->Some_0;
            &&& fields.project_id is Some && project.len() > 0
            &&& fields.device_id is Some && device.len() > 0
            &&& fields.file is Some
            &&& file.format_label.len() > 0
            &&& fields.requested_format == Some(file.format_label)
            &&& fields.mapping is Some ==> file.format == import::ImportFormat::Csv
            &&& c.projects.contains_key(project)
            &&& c.devices.contains_key(device)
            &&& c.projects[project].organization_id == c.devices[device].organization_id
            &&& exists|k: Seq<char>| #[trigger]
                c.device_assignments.contains_key(k) && c.device_assignments[k].project_id
                    == project && c.device_assignments[k].device_id == device
                    && c.device_assignments[k].valid_to is None
            &&& fields.data_source_id is Some ==> {
                &&& c.data_sources.contains_key(source)
                &&& c.data_sources[source].device_id == device
                &&& c.data_sources[source].protocol == "file"@
                &&& exists|k: Seq<char>| #[trigger]
                    c.data_assignments.contains_key(k) && c.data_assignments[k].project_id
                        == project && c.data_assignments[k].data_source_id == source
                        && c.data_assignments[k].valid_to is None
            }
        },
{
    if fields.project_id is Some && fields.device_id is Some {
        let project = fields.project_id->Some_0;
        let device = fields.device_id->Some_0;
        assert(catalog::device_is_assigned(c.device_assignments, project, device) == exists|
            k: Seq<char>,
        | #[trigger]
            c.device_assignments.contains_key(k) && c.device_assignments[k].project_id == project
                && c.device_assignments[k].device_id == device
                && c.device_assignments[k].valid_to is None);
        if fields.data_source_id is Some {
            let source = fields.data_source_id->Some_0;
            assert(catalog::source_is_assigned(c.data_assignments, project, source) == exists|
                k: Seq<char>,
            | #[trigger]
                c.data_assignments.contains_key(k) && c.data_assignments[k].project_id == project
                    && c.data_assignments[k].data_source_id == source
                    && c.data_assignments[k].valid_to is None);
        }
    }
}

/// A new import runs for what was asked, with the file that came, and is captured under
/// assignments that are in force: they are those that it needs to complete.
pub proof fn law_new_imports_hold_the_upload(
    c: CatalogView,
    fields: UploadFieldsView,
    import_id: Seq<char>,
    source_id: Seq<char>,
    assignment_id: Seq<char>,
    now: Seq<char>,
)
    requires
        c.device_assignments.dom().finite(),
        c.data_assignments.dom().finite(),
        c.data_sources.dom().finite(),
        forall|k: Seq<char>| #[trigger]
            c.device_assignments.contains_key(k) ==> c.device_assignments[k].id == k,
        forall|k: Seq<char>| #[trigger]
            c.data_assignments.contains_key(k) ==> c.data_assignments[k].id == k,
        forall|k: Seq<char>| #[trigger] c.data_sources.contains_key(k) ==> c.data_sources[k].id == k,
        forall|k: Seq<char>| #[trigger] c.devices.contains_key(k) ==> c.devices[k].id == k,
        forall|k: Seq<char>| #[trigger] c.projects.contains_key(k) ==> c.projects[k].id == k,
        !c.data_sources.contains_key(source_id),
        !c.data_assignments.contains_key(assignment_id),
        registered(c, fields, None, import_id, source_id, assignment_id, now) is Ok,
    ensures
        ({
            let (after, import, fresh) = registered(
                c,
                fields,
                None,
                import_id,
                source_id,
                assignment_id,
                now,
            )->Ok_0;
            let file = fields.file->Some_0;
            let source = after.data_sources[import.data_source_id];
            &&& fresh
            &&& after.recording_imports.contains_key(import_id)
            &&& after.recording_imports[import_id] == import
            &&& import.id == import_id
            &&& Some(import.project_id) == fields.project_id
            &&& Some(import.device_id) == fields.device_id
            &&& fields.data_source_id is Some ==> Some(import.data_source_id)
                == fields.data_source_id
            &&& after.data_sources.contains_key(import.data_source_id)
            &&& source.device_id == import.device_id
            &&& source.protocol == "file"@
            &&& import.status == "processing"@
            &&& import.file_name == file.file_name
            &&& import.format == file.format_label
            &&& import.size_bytes == file.size_bytes
            &&& import.source_sha256 == Some(file.sha256)
            &&& import.recording_id is None
            &&& import.failure_reason is None
            &&& import.created_at == now
            &&& after.import_artifacts.contains_key(import_id)
            &&& after.import_artifacts[import_id].source_relative_path == file.relative_path
            &&& after.import_artifacts[import_id].source_content_type == file.content_type
            &&& after.import_artifacts[import_id].organization_id
                == c.projects[import.project_id].organization_id
            &&& after.import_cancellations.contains_key(import_id)
            &&& capture_holds(after, import_id)
            &&& after.recordings == c.recordings
            &&& after.device_assignments == c.device_assignments
        }),
{
    let project = fields.project_id->Some_0;
    let device = fields.device_id->Some_0;
    let p = |a: DeviceAssignmentView| catalog::assigned_device(a, project, device);
    table::lemma_first_key(c.device_assignments, p);
    match fields.data_source_id {
        Some(s) => {
            let q = |a: DataAssignmentView| catalog::assigned_source(a, project, s);
            table::lemma_first_key(c.data_assignments, q);
        },
        None => {
            let f = |s: DataSourceView| is_file_source(s, device);
            if table::any_value(c.data_sources, f) {
                table::lemma_first_key(c.data_sources, f);
            }
            let source = file_source(c, device, source_id, now);
            let q = |a: DataAssignmentView| catalog::assigned_source(a, project, source.id);
            if table::any_value(c.data_assignments, q) {
                table::lemma_first_key(c.data_assignments, q);
            }
        },
    }
}

/// A running import is cancelled and stays in the catalog; one that has ended can be removed, once
/// its worker is done and no replay of its recording is open. What goes is the import with its
/// files, its receipts and its recording, and no other.
pub proof fn law_removed_imports_take_their_recording_along(
    c: CatalogView,
    id: Seq<char>,
    now: Seq<char>,
    k: Seq<char>,
)
    ensures
        removal_failure(c, id) is None <==> {
            &&& c.recording_imports.contains_key(id)
            &&& !c.import_cancellations.contains_key(id)
            &&& c.recording_imports[id].recording_id is Some ==> forall|j: Seq<char>| #[trigger]
                c.replay_sessions.contains_key(j) && Some(c.replay_sessions[j].recording_id)
                    == c.recording_imports[id].recording_id ==> c.replay_sessions[j].status
                    != "open"@
        },
        removal_failure(c, id) is None ==> {
            let after = without_import(c, id);
            let recording = c.recording_imports[id].recording_id;
            &&& !after.recording_imports.contains_key(id)
            &&& !after.import_artifacts.contains_key(id)
            &&& k != id && c.recording_imports.contains_key(k) ==> after.recording_imports[k]
                == c.recording_imports[k]
            &&& after.recordings.contains_key(k) <==> c.recordings.contains_key(k) && recording
                != Some(k)
            &&& after.topics_by_recording.contains_key(k) <==> c.topics_by_recording.contains_key(k)
                && recording != Some(k)
            &&& after.import_receipts.contains_key(k) <==> c.import_receipts.contains_key(k)
                && c.import_receipts[k].import_id != id
            &&& after.data_sources == c.data_sources
            &&& after.data_assignments == c.data_assignments
        },
        deletion_failure(c, id) is None ==> {
            let after = with_cancelled(c, id, now);
            &&& after.recording_imports[id].status == "cancelled"@
            &&& after.recording_imports[id].file_name == c.recording_imports[id].file_name
            &&& k != id && c.recording_imports.contains_key(k) ==> after.recording_imports[k]
                == c.recording_imports[k]
            &&& after.recordings == c.recordings
            &&& after.import_artifacts == c.import_artifacts
        },
{
    if c.recording_imports.contains_key(id) && c.recording_imports[id].recording_id is Some {
        let r = c.recording_imports[id].recording_id->Some_0;
        let open = |s: ReplaySessionView| open_replay_of(s, r);
        if table::any_value(c.replay_sessions, open) {
            let j = choose|j: Seq<char>| #[trigger]
                c.replay_sessions.contains_key(j) && open(c.replay_sessions[j]);
            assert(c.replay_sessions.contains_key(j));
        } else {
            assert forall|j: Seq<char>| #[trigger]
                c.replay_sessions.contains_key(j) && c.replay_sessions[j].recording_id == r implies
                c.replay_sessions[j].status != "open"@ by {
                assert(!open(c.replay_sessions[j]));
            }
        }
    }
}

/// The file of an import is handed out as it was received, with its digest, unless the import was
/// cancelled.
pub proof fn law_source_files_are_kept(c: CatalogView, id: Seq<char>)
    ensures
        source_file(c, id) is Ok <==> c.recording_imports.contains_key(id)
            && c.recording_imports[id].status != "cancelled"@ && c.import_artifacts.contains_key(id)
            && c.recording_imports[id].source_sha256 is Some,
        source_file(c, id) matches Ok((artifact, digest)) ==> artifact == c.import_artifacts[id]
            && Some(digest) == c.recording_imports[id].source_sha256,
{
}

/// An upload under a key that stands for another upload is refused.
pub proof fn law_keys_stand_for_one_upload(
    c: CatalogView,
    fields: UploadFieldsView,
    key: Seq<char>,
    import_id: Seq<char>,
    source_id: Seq<char>,
    assignment_id: Seq<char>,
    now: Seq<char>,
)
    requires
        c.import_receipts.contains_key(key),
        c.import_receipts[key].fingerprint != upload_fingerprint(fields),
    ensures
        registered(c, fields, Some(key), import_id, source_id, assignment_id, now) is Err,
{
}

} // verus!
