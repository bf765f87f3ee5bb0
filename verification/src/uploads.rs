//! What an upload may look like: its fields, its file name and the first bytes of its file.

use crate::api;
use crate::api::{ApiError, ApiErrorKind, ApiErrorView};
use crate::bytes;
use crate::catalog;
use crate::catalog::{Catalog, CatalogView};
use crate::discovery_rules;
use crate::hashing;
use crate::hashing::FileDigest;
use crate::import::ImportFormat;
use crate::names;
use crate::table;
use crate::text;
use vstd::prelude::*;
use vstd::string::*;
use vstd::utf8::*;

verus! {

pub const MAX_TEXT_FIELD_BYTES: usize = 65_536;
pub const DEFAULT_MAX_UPLOAD_BYTES: u64 = 536_870_912;
/// How much a multipart body may add to the file in it.
pub const MULTIPART_OVERHEAD_BYTES: u64 = 1_048_576;

pub open spec fn too_large(message: Seq<char>) -> ApiErrorView {
    api::failure(ApiErrorKind::PayloadTooLarge, message)
}

pub open spec fn unsupported(message: Seq<char>) -> ApiErrorView {
    api::failure(ApiErrorKind::UnsupportedMediaType, message)
}

pub open spec fn key_answer(r: Result<Option<String>, ApiError>) -> Result<
    Option<Seq<char>>,
    ApiErrorView,
> {
    match r {
        Ok(o) => Ok(table::view_option(o)),
        Err(e) => Err(e@),
    }
}

/// The idempotency key of an upload, which is optional but must be printable.
pub open spec fn optional_key(raw: Option<Seq<u8>>) -> Result<Option<Seq<char>>, ApiErrorView> {
    match raw {
        None => Ok(None),
        Some(_) => match discovery_rules::printable_header(raw, "Idempotency-Key"@) {
            Ok(key) => Ok(Some(key)),
            Err(e) => Err(e),
        },
    }
}

pub fn parse_idempotency_key(raw: &Option<Vec<u8>>) -> (r: Result<Option<String>, ApiError>)
    ensures
        key_answer(r) == optional_key(discovery_rules::raw_view(*raw)),
{
    if raw.is_none() {
        return Ok(None);
    }
    match discovery_rules::required_printable_header(raw, "Idempotency-Key") {
        Ok(key) => Ok(Some(key)),
        Err(e) => Err(e),
    }
}

/// The length that a header announces, if it is a number.
pub open spec fn announced_length(raw: Option<Seq<u8>>) -> Option<nat> {
    match raw {
        None => None,
        Some(bytes) => if discovery_rules::all_visible(bytes) {
            text::number_read(discovery_rules::ascii_text(bytes), u64::MAX as nat)
        } else {
            None
        },
    }
}

/// Refuses a request that announces more than an upload may take.
pub fn check_content_length(raw: &Option<Vec<u8>>, max_upload_bytes: u64) -> (r: Result<
    (),
    ApiError,
>)
    ensures
        discovery_rules::checked(
            r,
            match announced_length(discovery_rules::raw_view(*raw)) {
                Some(n) => if n > max_upload_bytes + MULTIPART_OVERHEAD_BYTES {
                    Some(too_large("The multipart request exceeds the upload limit."@))
                } else {
                    None
                },
                None => None,
            },
        ),
{
    match raw {
        None => Ok(()),
        Some(bytes) => match discovery_rules::visible_text(bytes.as_slice()) {
            None => Ok(()),
            Some(s) => match text::parse_number(s.as_str(), u64::MAX) {
                None => Ok(()),
                Some(n) => {
                    let limit: u64 = max_upload_bytes.saturating_add(MULTIPART_OVERHEAD_BYTES);
                    if n > limit {
                        return Err(
                            ApiError::new(
                                ApiErrorKind::PayloadTooLarge,
                                "The multipart request exceeds the upload limit.",
                            ),
                        );
                    }
                    Ok(())
                },
            },
        },
    }
}

/// What identifies an import: everything that was asked for, and the digest of the file.
pub open spec fn import_identity(
    project: Seq<char>,
    device: Seq<char>,
    source: Option<Seq<char>>,
    format: Seq<char>,
    mapping: Option<Seq<u8>>,
    source_sha256: Seq<char>,
) -> Seq<u8> {
    let source = match source {
        Some(s) => s,
        None => Seq::<char>::empty(),
    };
    let fields = encode_utf8(project) + seq![0u8] + encode_utf8(device) + seq![0u8] + encode_utf8(
        source,
    ) + seq![0u8] + encode_utf8(format) + seq![0u8] + encode_utf8(source_sha256) + seq![0u8];
    match mapping {
        Some(m) => fields + m,
        None => fields,
    }
}

fn add_field(whole: &mut Vec<u8>, s: &str)
    ensures
        final(whole)@ == old(whole)@ + encode_utf8(s@) + seq![0u8],
{
    hashing::extend(whole, s.as_bytes());
    whole.push(0u8);
    proof {
        assert(whole@ =~= old(whole)@ + encode_utf8(s@) + seq![0u8]);
    }
}

/// The fingerprint of an import, by which a repeated upload is recognized.
pub fn import_fingerprint(
    project_id: &str,
    device_id: &str,
    data_source_id: &Option<String>,
    format: &str,
    mapping: &Option<Vec<u8>>,
    source_sha256: &str,
) -> (r: String)
    ensures
        r@ == hashing::sha256_hex(
            import_identity(
                project_id@,
                device_id@,
                table::view_option(*data_source_id),
                format@,
                discovery_rules::raw_view(*mapping),
                source_sha256@,
            ),
        ),
{
    let source = match data_source_id {
        Some(s) => s.clone(),
        None => String::new(),
    };
    let mut whole: Vec<u8> = Vec::new();
    add_field(&mut whole, project_id);
    add_field(&mut whole, device_id);
    add_field(&mut whole, source.as_str());
    add_field(&mut whole, format);
    add_field(&mut whole, source_sha256);
    match mapping {
        Some(m) => {
            hashing::extend(&mut whole, m.as_slice());
        },
        None => {},
    }
    proof {
        assert(whole@ =~= import_identity(
            project_id@,
            device_id@,
            table::view_option(*data_source_id),
            format@,
            discovery_rules::raw_view(*mapping),
            source_sha256@,
        ));
    }
    hashing::hex_sha256(whole.as_slice())
}

/// A file that was received.
#[derive(Debug)]
pub struct UploadedFile {
    pub file_name: String,
    pub relative_path: String,
    pub format: ImportFormat,
    pub format_label: String,
    pub content_type: String,
    pub size_bytes: u64,
    pub sha256: String,
}

pub struct UploadedFileView {
    pub file_name: Seq<char>,
    pub relative_path: Seq<char>,
    pub format: ImportFormat,
    pub format_label: Seq<char>,
    pub content_type: Seq<char>,
    pub size_bytes: u64,
    pub sha256: Seq<char>,
}

impl View for UploadedFile {
    type V = UploadedFileView;

    open spec fn view(&self) -> UploadedFileView {
        UploadedFileView {
            file_name: self.file_name@,
            relative_path: self.relative_path@,
            format: self.format,
            format_label: self.format_label@,
            content_type: self.content_type@,
            size_bytes: self.size_bytes,
            sha256: self.sha256@,
        }
    }
}

/// The fields of an upload that have arrived so far.
#[derive(Debug)]
pub struct UploadFields {
    pub project_id: Option<String>,
    pub device_id: Option<String>,
    pub data_source_id: Option<String>,
    pub requested_format: Option<String>,
    /// The mapping as encoded JSON.
    pub mapping: Option<Vec<u8>>,
    pub file: Option<UploadedFile>,
}

#[verifier::ext_equal]
pub struct UploadFieldsView {
    pub project_id: Option<Seq<char>>,
    pub device_id: Option<Seq<char>>,
    pub data_source_id: Option<Seq<char>>,
    pub requested_format: Option<Seq<char>>,
    pub mapping: Option<Seq<u8>>,
    pub file: Option<UploadedFileView>,
}

impl View for UploadFields {
    type V = UploadFieldsView;

    open spec fn view(&self) -> UploadFieldsView {
        UploadFieldsView {
            project_id: table::view_option(self.project_id),
            device_id: table::view_option(self.device_id),
            data_source_id: table::view_option(self.data_source_id),
            requested_format: table::view_option(self.requested_format),
            mapping: discovery_rules::raw_view(self.mapping),
            file: table::view_option(self.file),
        }
    }
}

impl Default for UploadFields {
    fn default() -> (r: Self)
        ensures
            r@ == (UploadFieldsView {
                project_id: None,
                device_id: None,
                data_source_id: None,
                requested_format: None,
                mapping: None,
                file: None,
            }),
    {
        UploadFields::new()
    }
}

impl UploadFields {
    pub fn new() -> (r: Self)
        ensures
            r@ == (UploadFieldsView {
                project_id: None,
                device_id: None,
                data_source_id: None,
                requested_format: None,
                mapping: None,
                file: None,
            }),
    {
        UploadFields {
            project_id: None,
            device_id: None,
            data_source_id: None,
            requested_format: None,
            mapping: None,
            file: None,
        }
    }
}

/// The text fields of an upload.
#[derive(Clone, Copy, Debug, PartialEq, Eq, Structural)]
pub enum TextField {
    ProjectId,
    DeviceId,
    DataSourceId,
    Format,
}

/// What to do with the next field of an upload.
#[derive(Clone, Copy, Debug, PartialEq, Eq, Structural)]
pub enum FieldAction {
    ReadText(TextField),
    ReadMapping,
    ReadFile,
}

pub open spec fn required_value(value: Option<Seq<char>>, name: Seq<char>) -> Result<
    Seq<char>,
    ApiErrorView,
> {
    match value {
        Some(v) => if v.len() > 0 {
            Ok(v)
        } else {
            Err(api::bad_request(name + " is required."@))
        },
        None => Err(api::bad_request(name + " is required."@)),
    }
}

pub fn required(value: &Option<String>, name: &str) -> (r: Result<String, ApiError>)
    ensures
        api::answer_view(r) == required_value(table::view_option(*value), name@),
{
    match value {
        Some(v) => {
            if !v.as_str().is_empty() {
                return Ok(v.clone());
            }
        },
        None => {},
    }
    let message = text::line(name).add(" is required.").done();
    Err(ApiError::bad_request(message.as_str()))
}

/// Why data of a device may not be imported into a project.
pub open spec fn scope_failure(
    c: CatalogView,
    project: Seq<char>,
    device: Seq<char>,
    source: Option<Seq<char>>,
) -> Option<ApiErrorView> {
    if !c.projects.contains_key(project) {
        Some(api::not_found("Project"@, project))
    } else if !c.devices.contains_key(device) {
        Some(api::not_found("Device"@, device))
    } else if c.projects[project].organization_id != c.devices[device].organization_id {
        Some(api::conflict("Project and Device must belong to the same organization."@))
    } else if !catalog::device_is_assigned(c.device_assignments, project, device) {
        Some(api::conflict("Device must have an active assignment to the Project."@))
    } else {
        match source {
            None => None,
            Some(s) => source_scope_failure(c, project, device, s),
        }
    }
}

/// Why data may not be imported into a data source.
pub open spec fn source_scope_failure(
    c: CatalogView,
    project: Seq<char>,
    device: Seq<char>,
    source: Seq<char>,
) -> Option<ApiErrorView> {
    if !c.data_sources.contains_key(source) {
        Some(api::not_found("DataSource"@, source))
    } else if c.data_sources[source].device_id != device {
        Some(api::conflict("DataSource does not belong to the selected Device."@))
    } else if c.data_sources[source].protocol != "file"@ {
        Some(
            api::conflict(
                "Imports require a file DataSource and cannot modify a Live DataSource."@,
            ),
        )
    } else if !catalog::source_is_assigned(c.data_assignments, project, source) {
        Some(api::conflict("DataSource must have an active assignment to the Project."@))
    } else {
        None
    }
}

fn check_source_scope(c: &Catalog, project: &str, device: &str, source: &str) -> (r: Result<
    (),
    ApiError,
>)
    ensures
        discovery_rules::checked(r, source_scope_failure(c@, project@, device@, source@)),
{
    match c.data_sources.get(source) {
        None => Err(ApiError::not_found("DataSource", source)),
        Some(s) => {
            if !text::same(s.device_id.as_str(), device) {
                return Err(
                    ApiError::conflict("DataSource does not belong to the selected Device."),
                );
            }
            if !text::same(s.protocol.as_str(), "file") {
                return Err(
                    ApiError::conflict(
                        "Imports require a file DataSource and cannot modify a Live DataSource.",
                    ),
                );
            }
            if catalog::find_source_assignment(&c.data_assignments, project, source).is_none() {
                return Err(
                    ApiError::conflict("DataSource must have an active assignment to the Project."),
                );
            }
            Ok(())
        },
    }
}

/// Checks that data of a device may be imported into a project.
pub fn validate_import_scope(
    c: &Catalog,
    project: &str,
    device: &str,
    source: &Option<String>,
) -> (r: Result<(), ApiError>)
    ensures
        discovery_rules::checked(
            r,
            scope_failure(c@, project@, device@, table::view_option(*source)),
        ),
{
    let p = match c.projects.get(project) {
        Some(p) => p,
        None => {
            return Err(ApiError::not_found("Project", project));
        },
    };
    let d = match c.devices.get(device) {
        Some(d) => d,
        None => {
            return Err(ApiError::not_found("Device", device));
        },
    };
    if !text::same(p.organization_id.as_str(), d.organization_id.as_str()) {
        return Err(ApiError::conflict("Project and Device must belong to the same organization."));
    }
    if catalog::find_device_assignment(&c.device_assignments, project, device).is_none() {
        return Err(ApiError::conflict("Device must have an active assignment to the Project."));
    }
    match source {
        None => Ok(()),
        Some(s) => check_source_scope(c, project, device, s.as_str()),
    }
}

/// What becomes of the next field of an upload.
pub open spec fn field_outcome(fields: UploadFieldsView, c: CatalogView, name: Option<Seq<char>>) -> Result<
    FieldAction,
    ApiErrorView,
> {
    match name {
        None => Err(api::bad_request("Every multipart field must have a name."@)),
        Some(n) => if fields.file is Some {
            Err(api::bad_request("file must be the final multipart field."@))
        } else if n == "file"@ {
            match required_value(fields.project_id, "projectId"@) {
                Err(e) => Err(e),
                Ok(project) => match required_value(fields.device_id, "deviceId"@) {
                    Err(e) => Err(e),
                    Ok(device) => match required_value(fields.requested_format, "format"@) {
                        Err(e) => Err(e),
                        Ok(_) => match scope_failure(c, project, device, fields.data_source_id) {
                            Some(e) => Err(e),
                            None => Ok(FieldAction::ReadFile),
                        },
                    },
                },
            }
        } else if n == "projectId"@ {
            Ok(FieldAction::ReadText(TextField::ProjectId))
        } else if n == "deviceId"@ {
            Ok(FieldAction::ReadText(TextField::DeviceId))
        } else if n == "dataSourceId"@ {
            Ok(FieldAction::ReadText(TextField::DataSourceId))
        } else if n == "format"@ {
            Ok(FieldAction::ReadText(TextField::Format))
        } else if n == "mapping"@ {
            if fields.mapping is Some {
                Err(api::bad_request("mapping must not be repeated."@))
            } else {
                Ok(FieldAction::ReadMapping)
            }
        } else {
            Err(api::bad_request("Unknown multipart field `"@ + n + "`."@))
        },
    }
}

/// Decides what to do with the next field of an upload.
pub fn next_field(fields: &UploadFields, c: &Catalog, name: &Option<String>) -> (r: Result<
    FieldAction,
    ApiError,
>)
    ensures
        api::answer(r) == field_outcome(fields@, c@, table::view_option(*name)),
{
    let n = match name {
        None => {
            return Err(ApiError::bad_request("Every multipart field must have a name."));
        },
        Some(n) => n,
    };
    if fields.file.is_some() {
        return Err(ApiError::bad_request("file must be the final multipart field."));
    }
    if text::same(n.as_str(), "file") {
        let project = match required(&fields.project_id, "projectId") {
            Ok(v) => v,
            Err(e) => {
                return Err(e);
            },
        };
        let device = match required(&fields.device_id, "deviceId") {
            Ok(v) => v,
            Err(e) => {
                return Err(e);
            },
        };
        match required(&fields.requested_format, "format") {
            Ok(_) => {},
            Err(e) => {
                return Err(e);
            },
        }
        return match validate_import_scope(
            c,
            project.as_str(),
            device.as_str(),
            &fields.data_source_id,
        ) {
            Ok(()) => Ok(FieldAction::ReadFile),
            Err(e) => Err(e),
        };
    }
    if text::same(n.as_str(), "projectId") {
        return Ok(FieldAction::ReadText(TextField::ProjectId));
    }
    if text::same(n.as_str(), "deviceId") {
        return Ok(FieldAction::ReadText(TextField::DeviceId));
    }
    if text::same(n.as_str(), "dataSourceId") {
        return Ok(FieldAction::ReadText(TextField::DataSourceId));
    }
    if text::same(n.as_str(), "format") {
        return Ok(FieldAction::ReadText(TextField::Format));
    }
    if text::same(n.as_str(), "mapping") {
        if fields.mapping.is_some() {
            return Err(ApiError::bad_request("mapping must not be repeated."));
        }
        return Ok(FieldAction::ReadMapping);
    }
    let message = text::line("Unknown multipart field `").add(n.as_str()).add("`.").done();
    Err(ApiError::bad_request(message.as_str()))
}

pub open spec fn field_name(field: TextField) -> Seq<char> {
    match field {
        TextField::ProjectId => "projectId"@,
        TextField::DeviceId => "deviceId"@,
        TextField::DataSourceId => "dataSourceId"@,
        TextField::Format => "format"@,
    }
}

pub open spec fn field_value(fields: UploadFieldsView, field: TextField) -> Option<Seq<char>> {
    match field {
        TextField::ProjectId => fields.project_id,
        TextField::DeviceId => fields.device_id,
        TextField::DataSourceId => fields.data_source_id,
        TextField::Format => fields.requested_format,
    }
}

pub open spec fn with_field(fields: UploadFieldsView, field: TextField, value: Seq<char>) -> UploadFieldsView {
    match field {
        TextField::ProjectId => UploadFieldsView { project_id: Some(value), ..fields },
        TextField::DeviceId => UploadFieldsView { device_id: Some(value), ..fields },
        TextField::DataSourceId => UploadFieldsView { data_source_id: Some(value), ..fields },
        TextField::Format => UploadFieldsView { requested_format: Some(value), ..fields },
    }
}

/// Puts a value into a slot that must have been empty.
pub fn set_once(slot: &mut Option<String>, value: String, name: &str) -> (r: Result<(), ApiError>)
    ensures
        table::view_option(*final(slot)) == Some(value@),
        discovery_rules::checked(
            r,
            if *old(slot) is Some {
                Some(api::bad_request(name@ + " must not be repeated."@))
            } else {
                None
            },
        ),
{
    let repeated = slot.is_some();
    *slot = Some(value);
    if repeated {
        let message = text::line(name).add(" must not be repeated.").done();
        return Err(ApiError::bad_request(message.as_str()));
    }
    Ok(())
}

/// Keeps the value of a text field; a field may come only once.
pub fn store_text(fields: &mut UploadFields, field: TextField, value: String) -> (r: Result<
    (),
    ApiError,
>)
    ensures
        final(fields)@ == with_field(old(fields)@, field, value@),
        discovery_rules::checked(
            r,
            if field_value(old(fields)@, field) is Some {
                Some(api::bad_request(field_name(field) + " must not be repeated."@))
            } else {
                None
            },
        ),
{
    match field {
        TextField::ProjectId => set_once(&mut fields.project_id, value, "projectId"),
        TextField::DeviceId => set_once(&mut fields.device_id, value, "deviceId"),
        TextField::DataSourceId => set_once(&mut fields.data_source_id, value, "dataSourceId"),
        TextField::Format => set_once(&mut fields.requested_format, value, "format"),
    }
}

/// Keeps the mapping, once it was read as a JSON object; nothing comes in where it is none.
pub fn store_mapping(fields: &mut UploadFields, object: Option<Vec<u8>>) -> (r: Result<
    (),
    ApiError,
>)
    ensures
        match object {
            Some(bytes) => r is Ok && final(fields)@ == (UploadFieldsView {
                mapping: Some(bytes@),
                ..old(fields)@
            }),
            None => final(fields)@ == old(fields)@ && (r matches Err(e) && e@ == api::bad_request(
                "mapping must be a valid JSON object."@,
            )),
        },
{
    match object {
        Some(bytes) => {
            fields.mapping = Some(bytes);
            Ok(())
        },
        None => Err(ApiError::bad_request("mapping must be a valid JSON object.")),
    }
}

/// What a text encodes as JSON, in compact form, where that is an object.
pub uninterp spec fn json_object(text: Seq<char>) -> Option<Seq<u8>>;

/// `serde_json::from_str` reads a text as a JSON value, and `serde_json::Value`'s `Display` writes
/// an object in compact form. What comes out is only named; a text that is no JSON, or another
/// value than an object, gives nothing.
#[verifier::external_body]
fn read_object(text: &str) -> (r: Option<Vec<u8>>)
    ensures
        discovery_rules::raw_view(r) == json_object(text@),
{
    match serde_json::from_str::<serde_json::Value>(text) {
        Ok(serde_json::Value::Object(map)) => {
            Some(serde_json::Value::Object(map).to_string().into_bytes())
        },
        Ok(_) => None,
        Err(_) => None,
    }
}

/// Reads the mapping of an upload, which has to be a JSON object, and keeps it.
pub fn read_mapping(fields: &mut UploadFields, value: &str) -> (r: Result<(), ApiError>)
    ensures
        match json_object(value@) {
            Some(bytes) => r is Ok && final(fields)@ == (UploadFieldsView {
                mapping: Some(bytes),
                ..old(fields)@
            }),
            None => final(fields)@ == old(fields)@ && (r matches Err(e) && e@ == api::bad_request(
                "mapping must be a valid JSON object."@,
            )),
        },
{
    store_mapping(fields, read_object(value))
}

/// Adds a chunk to a text field that is being read.
pub fn collect_text(bytes: &mut Vec<u8>, chunk: &[u8], max_bytes: usize) -> (r: Result<
    (),
    ApiError,
>)
    ensures
        if old(bytes)@.len() + chunk@.len() > max_bytes {
            final(bytes)@ == old(bytes)@ && (r matches Err(e) && e@ == too_large(
                "A multipart text field is too large."@,
            ))
        } else {
            r is Ok && final(bytes)@ == old(bytes)@ + chunk@
        },
{
    let have: usize = bytes.len();
    let more: usize = chunk.len();
    if have > max_bytes || more > max_bytes - have {
        return Err(
            ApiError::new(
                ApiErrorKind::PayloadTooLarge,
                "A multipart text field is too large.",
            ),
        );
    }
    hashing::extend(bytes, chunk);
    Ok(())
}

/// The text of a field that was read to its end.
pub fn finish_text(bytes: &Vec<u8>) -> (r: Result<String, ApiError>)
    ensures
        api::answer_view(r) == if valid_utf8(bytes@) {
            Ok::<Seq<char>, ApiErrorView>(text::trim(decode_utf8(bytes@)))
        } else {
            Err(api::bad_request("Multipart text fields must be UTF-8."@))
        },
{
    match text::utf8_text(bytes.as_slice()) {
        Ok(s) => Ok(text::trimmed(s.as_str())),
        Err(_) => Err(ApiError::bad_request("Multipart text fields must be UTF-8.")),
    }
}

/// What has been received of a file.
pub struct UploadProgress {
    pub size_bytes: u64,
    /// At most the first sixteen bytes.
    pub prefix: Vec<u8>,
    pub digest: FileDigest,
}

pub open spec fn first_bytes(s: Seq<u8>) -> Seq<u8> {
    if s.len() <= 16 {
        s
    } else {
        s.take(16)
    }
}

impl UploadProgress {
    /// Progress on a file of which `received` has arrived.
    pub open spec fn after(self, received: Seq<u8>) -> bool {
        &&& self.size_bytes == received.len()
        &&& self.prefix@ == first_bytes(received)
        &&& self.digest@ == received
    }

    pub fn new() -> (r: Self)
        ensures
            r.after(Seq::empty()),
    {
        let r = UploadProgress { size_bytes: 0, prefix: Vec::new(), digest: FileDigest::new() };
        proof {
            assert(r.prefix@ =~= Seq::<u8>::empty());
        }
        r
    }
}

pub open spec fn chunk_failure(size: nat, chunk: nat, max: u64) -> Option<ApiErrorView> {
    if size + chunk > u64::MAX {
        Some(too_large("The uploaded file is too large."@))
    } else if size + chunk > max {
        Some(
            too_large(
                "The uploaded file exceeds the "@ + text::decimal(max as nat) + " byte limit."@,
            ),
        )
    } else {
        None
    }
}

/// Accounts for the next chunk of a file.
pub fn receive_chunk(progress: &mut UploadProgress, chunk: &[u8], max_upload_bytes: u64) -> (r: Result<
    (),
    ApiError,
>)
    requires
        exists|received: Seq<u8>| old(progress).after(received),
        chunk_failure(old(progress).size_bytes as nat, chunk@.len(), max_upload_bytes) is None
            ==> old(progress).size_bytes + chunk@.len() <= hashing::MAX_DIGEST_BYTES,
    ensures
        discovery_rules::checked(
            r,
            chunk_failure(old(progress).size_bytes as nat, chunk@.len(), max_upload_bytes),
        ),
        r is Ok ==> forall|received: Seq<u8>| #[trigger]
            old(progress).after(received) ==> final(progress).after(received + chunk@),
        r is Err ==> *final(progress) == *old(progress),
{
    let n: usize = chunk.len();
    let size: u64 = match progress.size_bytes.checked_add(n as u64) {
        Some(size) => size,
        None => {
            return Err(
                ApiError::new(ApiErrorKind::PayloadTooLarge, "The uploaded file is too large."),
            );
        },
    };
    if size > max_upload_bytes {
        let message = text::line("The uploaded file exceeds the ").num(max_upload_bytes).add(
            " byte limit.",
        ).done();
        return Err(ApiError::new(ApiErrorKind::PayloadTooLarge, message.as_str()));
    }
    let have: usize = progress.prefix.len();
    let room: usize = if have < 16 {
        16 - have
    } else {
        0
    };
    let take: usize = if n < room {
        n
    } else {
        room
    };
    let mut digest = FileDigest::new();
    std::mem::swap(&mut digest, &mut progress.digest);
    progress.digest = match digest.take_in(chunk) {
        Ok(digest) => digest,
        Err(digest) => digest,
    };
    let part = bytes::slice_between(chunk, 0, take);
    hashing::extend(&mut progress.prefix, part);
    progress.size_bytes = size;
    proof {
        assert forall|received: Seq<u8>| #[trigger] old(progress).after(received) implies
        (*progress).after(received + chunk@) by {
            assert(progress.prefix@ =~= first_bytes(received + chunk@));
        }
    }
    Ok(())
}

/// The file that `received` makes up, under the name and the format that were accepted, or why
/// it is refused.
pub open spec fn file_outcome(
    received: Seq<u8>,
    file_name: Seq<char>,
    format: ImportFormat,
    format_label: Seq<char>,
    content_type: Seq<char>,
    relative_path: Seq<char>,
) -> Result<UploadedFileView, ApiErrorView> {
    if received.len() == 0 {
        Err(api::bad_request("The uploaded file is empty."@))
    } else if !magic_matches(format, file_name, first_bytes(received)) {
        Err(unsupported("The file signature does not match its selected format."@))
    } else {
        Ok(
            UploadedFileView {
                file_name,
                relative_path,
                format,
                format_label,
                content_type,
                size_bytes: received.len() as u64,
                sha256: hashing::sha256_hex(received),
            },
        )
    }
}

/// Checks a file that was received to its end, and describes it.
pub fn finish_file(
    progress: UploadProgress,
    file_name: String,
    format: ImportFormat,
    format_label: String,
    content_type: String,
    relative_path: String,
) -> (r: Result<UploadedFile, ApiError>)
    requires
        exists|received: Seq<u8>| progress.after(received),
    ensures
        forall|received: Seq<u8>| #[trigger]
            progress.after(received) ==> match file_outcome(
                received,
                file_name@,
                format,
                format_label@,
                content_type@,
                relative_path@,
            ) {
                Ok(v) => r matches Ok(file) && file@ == v,
                Err(e) => r matches Err(f) && f@ == e,
            },
{
    if progress.size_bytes == 0 {
        return Err(ApiError::bad_request("The uploaded file is empty."));
    }
    match validate_magic(format, file_name.as_str(), progress.prefix.as_slice()) {
        Ok(()) => {},
        Err(e) => {
            return Err(e);
        },
    }
    Ok(
        UploadedFile {
            file_name,
            relative_path,
            format,
            format_label,
            content_type,
            size_bytes: progress.size_bytes,
            sha256: progress.digest.finish(),
        },
    )
}

/// A name that is a single component of a path and nothing else.
pub open spec fn safe_file_name(name: Seq<char>) -> bool {
    &&& name.len() > 0
    &&& text::byte_len(name) <= 255
    &&& !text::any_control(name)
    &&& !names::has_char(name, '/')
    &&& !names::has_char(name, '\\')
    &&& names::base_name(name) == Some(name)
    &&& name != "."@
    &&& name != ".."@
}

/// The trimmed name of an uploaded file, if it is safe.
pub fn normalize_file_name(file_name: &str) -> (r: Result<String, ApiError>)
    ensures
        api::answer_view(r) == if safe_file_name(text::trim(file_name@)) {
            Ok::<Seq<char>, ApiErrorView>(text::trim(file_name@))
        } else {
            Err(
                api::bad_request("The uploaded filename must be a single safe path component."@),
            )
        },
{
    let name = text::trimmed(file_name);
    let base = names::file_name(name.as_str());
    let single = !name.as_str().is_empty() && text::utf8_size(name.as_str()) <= 255
        && !text::has_control(name.as_str()) && !names::contains_char(name.as_str(), '/')
        && !names::contains_char(name.as_str(), '\\') && table::is_text(&base, name.as_str())
        && !text::same(name.as_str(), ".") && !text::same(name.as_str(), "..");
    if !single {
        return Err(
            ApiError::bad_request("The uploaded filename must be a single safe path component."),
        );
    }
    Ok(name)
}

/// The format, its label and its media type, by extension.
pub open spec fn known_format(extension: Seq<char>) -> Option<(ImportFormat, Seq<char>, Seq<char>)> {
    if extension == "rrd"@ {
        Some((ImportFormat::Rrd, "rrd"@, "application/x-rerun"@))
    } else if extension == "mcap"@ {
        Some((ImportFormat::Mcap, "mcap"@, "application/octet-stream"@))
    } else if extension == "zip"@ {
        Some((ImportFormat::Ros2BagZip, "ros2-bag-zip"@, "application/zip"@))
    } else if extension == "csv"@ {
        Some((ImportFormat::Csv, "csv"@, "text/csv; charset=utf-8"@))
    } else if extension == "mp4"@ {
        Some((ImportFormat::Video, "video"@, "video/mp4"@))
    } else if extension == "mov"@ {
        Some((ImportFormat::Video, "video"@, "video/quicktime"@))
    } else if extension == "webm"@ {
        Some((ImportFormat::Video, "video"@, "video/webm"@))
    } else {
        None
    }
}

pub open spec fn format_outcome(file_name: Seq<char>) -> Result<
    (ImportFormat, Seq<char>, Seq<char>),
    ApiErrorView,
> {
    match names::lower_extension(file_name) {
        None => Err(unsupported("The file extension is required."@)),
        Some(e) => match known_format(e) {
            Some(f) => Ok(f),
            None => Err(
                unsupported(
                    "Supported files are RRD, MCAP, ROS 2 bag ZIP, CSV, MP4, MOV, and WebM."@,
                ),
            ),
        },
    }
}

/// Tells the format of a file from its name.
pub fn format_from_file_name(file_name: &str) -> (r: Result<
    (ImportFormat, &'static str, &'static str),
    ApiError,
>)
    ensures
        match r {
            Ok((format, label, media)) => format_outcome(file_name@) == Ok::<
                (ImportFormat, Seq<char>, Seq<char>),
                ApiErrorView,
            >((format, label@, media@)),
            Err(e) => format_outcome(file_name@) == Err::<
                (ImportFormat, Seq<char>, Seq<char>),
                ApiErrorView,
            >(e@),
        },
{
    let extension = match names::lowered_extension(file_name) {
        Some(e) => e,
        None => {
            return Err(
                ApiError::new(
                    ApiErrorKind::UnsupportedMediaType,
                    "The file extension is required.",
                ),
            );
        },
    };
    let e = extension.as_str();
    if text::same(e, "rrd") {
        Ok((ImportFormat::Rrd, "rrd", "application/x-rerun"))
    } else if text::same(e, "mcap") {
        Ok((ImportFormat::Mcap, "mcap", "application/octet-stream"))
    } else if text::same(e, "zip") {
        Ok((ImportFormat::Ros2BagZip, "ros2-bag-zip", "application/zip"))
    } else if text::same(e, "csv") {
        Ok((ImportFormat::Csv, "csv", "text/csv; charset=utf-8"))
    } else if text::same(e, "mp4") {
        Ok((ImportFormat::Video, "video", "video/mp4"))
    } else if text::same(e, "mov") {
        Ok((ImportFormat::Video, "video", "video/quicktime"))
    } else if text::same(e, "webm") {
        Ok((ImportFormat::Video, "video", "video/webm"))
    } else {
        Err(
            ApiError::new(
                ApiErrorKind::UnsupportedMediaType,
                "Supported files are RRD, MCAP, ROS 2 bag ZIP, CSV, MP4, MOV, and WebM.",
            ),
        )
    }
}

/// Whether the first bytes of a file can be those of its format.
pub open spec fn magic_matches(format: ImportFormat, file_name: Seq<char>, prefix: Seq<u8>) -> bool {
    match format {
        ImportFormat::Rrd => bytes::bytes_at(prefix, seq![0x52u8, 0x52u8, 0x46u8], 0)
            && prefix.len() >= 4 && (prefix[3] == 0x30 || prefix[3] == 0x31 || prefix[3] == 0x32),
        ImportFormat::Mcap => bytes::bytes_at(prefix, crate::mcap_limits::magic(), 0),
        ImportFormat::Ros2BagZip => prefix.len() >= 4 && prefix[0] == 0x50 && prefix[1] == 0x4b && ((
        prefix[2] == 3 && prefix[3] == 4) || (prefix[2] == 5 && prefix[3] == 6) || (prefix[2] == 7
            && prefix[3] == 8)),
        ImportFormat::Csv => forall|i: int| 0 <= i < prefix.len() ==> #[trigger] prefix[i] != 0,
        ImportFormat::Video => if names::lower_extension(file_name) == Some("webm"@) {
            bytes::bytes_at(prefix, seq![0x1au8, 0x45u8, 0xdfu8, 0xa3u8], 0)
        } else {
            bytes::bytes_at(prefix, seq![0x66u8, 0x74u8, 0x79u8, 0x70u8], 4)
        },
    }
}

fn starts_with_bytes(prefix: &[u8], part: Vec<u8>, at: usize) -> (r: bool)
    ensures
        r == bytes::bytes_at(prefix@, part@, at as int),
{
    bytes::has_bytes_at(prefix, part.as_slice(), at)
}

fn has_zero(prefix: &[u8]) -> (r: bool)
    ensures
        r == !(forall|i: int| 0 <= i < prefix@.len() ==> #[trigger] prefix@[i] != 0),
{
    let mut i: usize = 0;
    while i < prefix.len()
        invariant
            i <= prefix@.len(),
            forall|j: int| 0 <= j < i ==> #[trigger] prefix@[j] != 0,
        decreases prefix@.len() - i,
    {
        if prefix[i] == 0 {
            return true;
        }
        i = i + 1;
    }
    false
}

/// Checks the first bytes of an uploaded file against its format.
pub fn validate_magic(format: ImportFormat, file_name: &str, prefix: &[u8]) -> (r: Result<
    (),
    ApiError,
>)
    ensures
        discovery_rules::checked(
            r,
            if magic_matches(format, file_name@, prefix@) {
                None
            } else {
                Some(unsupported("The file signature does not match its selected format."@))
            },
        ),
{
    let valid = match format {
        ImportFormat::Rrd => {
            let rrf: Vec<u8> = vec![0x52u8, 0x52u8, 0x46u8];
            assert(rrf@ =~= seq![0x52u8, 0x52u8, 0x46u8]);
            starts_with_bytes(prefix, rrf, 0) && prefix.len() >= 4 && (prefix[3] == 0x30
                || prefix[3] == 0x31 || prefix[3] == 0x32)
        },
        ImportFormat::Mcap => crate::mcap_limits::has_mcap_magic(prefix),
        ImportFormat::Ros2BagZip => prefix.len() >= 4 && prefix[0] == 0x50 && prefix[1] == 0x4b && ((
        prefix[2] == 3 && prefix[3] == 4) || (prefix[2] == 5 && prefix[3] == 6) || (prefix[2] == 7
            && prefix[3] == 8)),
        ImportFormat::Csv => !has_zero(prefix),
        ImportFormat::Video => {
            let extension = names::lowered_extension(file_name);
            if table::is_text(&extension, "webm") {
                let ebml: Vec<u8> = vec![0x1au8, 0x45u8, 0xdfu8, 0xa3u8];
                assert(ebml@ =~= seq![0x1au8, 0x45u8, 0xdfu8, 0xa3u8]);
                starts_with_bytes(prefix, ebml, 0)
            } else {
                let ftyp: Vec<u8> = vec![0x66u8, 0x74u8, 0x79u8, 0x70u8];
                assert(ftyp@ =~= seq![0x66u8, 0x74u8, 0x79u8, 0x70u8]);
                starts_with_bytes(prefix, ftyp, 4)
            }
        },
    };
    if !valid {
        return Err(
            ApiError::new(
                ApiErrorKind::UnsupportedMediaType,
                "The file signature does not match its selected format.",
            ),
        );
    }
    Ok(())
}

pub open spec fn format_mismatch(requested: Seq<char>) -> ApiErrorView {
    unsupported(
        "The selected format `"@ + requested + "` does not match the uploaded file."@,
    )
}

/// The name, format, label and media type under which a file is accepted.
pub open spec fn accepted_file(file_name: Option<Seq<char>>, requested: Seq<char>) -> Result<
    (Seq<char>, ImportFormat, Seq<char>, Seq<char>),
    ApiErrorView,
> {
    match file_name {
        None => Err(api::bad_request("file must include a filename."@)),
        Some(raw) => {
            let name = text::trim(raw);
            if !safe_file_name(name) {
                Err(
                    api::bad_request(
                        "The uploaded filename must be a single safe path component."@,
                    ),
                )
            } else {
                match format_outcome(name) {
                    Err(e) => Err(e),
                    Ok((format, label, media)) => if requested != label {
                        Err(format_mismatch(requested))
                    } else {
                        Ok((name, format, label, media))
                    },
                }
            }
        },
    }
}

/// Decides whether a file may be received under the requested format.
pub fn accept_file(file_name: &Option<String>, requested: &str) -> (r: Result<
    (String, ImportFormat, String, String),
    ApiError,
>)
    ensures
        match r {
            Ok((name, format, label, media)) => accepted_file(
                table::view_option(*file_name),
                requested@,
            ) == Ok::<(Seq<char>, ImportFormat, Seq<char>, Seq<char>), ApiErrorView>(
                (name@, format, label@, media@),
            ),
            Err(e) => accepted_file(table::view_option(*file_name), requested@) == Err::<
                (Seq<char>, ImportFormat, Seq<char>, Seq<char>),
                ApiErrorView,
            >(e@),
        },
{
    let raw = match file_name {
        None => {
            return Err(ApiError::bad_request("file must include a filename."));
        },
        Some(raw) => raw,
    };
    let name = match normalize_file_name(raw.as_str()) {
        Ok(name) => name,
        Err(e) => {
            return Err(e);
        },
    };
    let (format, label, media) = match format_from_file_name(name.as_str()) {
        Ok(found) => found,
        Err(e) => {
            return Err(e);
        },
    };
    if !text::same(requested, label) {
        let message = text::line("The selected format `").add(requested).add(
            "` does not match the uploaded file.",
        ).done();
        return Err(ApiError::new(ApiErrorKind::UnsupportedMediaType, message.as_str()));
    }
    Ok((name, format, label.to_owned(), media.to_owned()))
}

/// The fault of an upload whose fields have all arrived.
pub open spec fn settle_failure(fields: UploadFieldsView) -> Option<ApiErrorView> {
    if required_value(fields.project_id, "projectId"@) is Err {
        Some(required_value(fields.project_id, "projectId"@)->Err_0)
    } else if required_value(fields.device_id, "deviceId"@) is Err {
        Some(required_value(fields.device_id, "deviceId"@)->Err_0)
    } else if fields.file is None {
        Some(api::bad_request("file is required."@))
    } else if required_value(fields.requested_format, "format"@) is Err {
        Some(required_value(fields.requested_format, "format"@)->Err_0)
    } else if fields.requested_format != Some(fields.file->Some_0.format_label) {
        Some(format_mismatch(fields.requested_format->Some_0))
    } else if fields.mapping is Some && fields.file->Some_0.format != ImportFormat::Csv {
        Some(api::bad_request("mapping is only accepted for CSV imports."@))
    } else {
        None
    }
}

/// Checks an upload whose fields have all arrived.
pub fn settle_upload(fields: &UploadFields) -> (r: Result<(), ApiError>)
    ensures
        discovery_rules::checked(r, settle_failure(fields@)),
{
    match required(&fields.project_id, "projectId") {
        Ok(_) => {},
        Err(e) => {
            return Err(e);
        },
    }
    match required(&fields.device_id, "deviceId") {
        Ok(_) => {},
        Err(e) => {
            return Err(e);
        },
    }
    let file = match &fields.file {
        None => {
            return Err(ApiError::bad_request("file is required."));
        },
        Some(file) => file,
    };
    let requested = match required(&fields.requested_format, "format") {
        Ok(v) => v,
        Err(e) => {
            return Err(e);
        },
    };
    if !text::same(requested.as_str(), file.format_label.as_str()) {
        let message = text::line("The selected format `").add(requested.as_str()).add(
            "` does not match the uploaded file.",
        ).done();
        return Err(ApiError::new(ApiErrorKind::UnsupportedMediaType, message.as_str()));
    }
    if fields.mapping.is_some() && file.format != ImportFormat::Csv {
        return Err(ApiError::bad_request("mapping is only accepted for CSV imports."));
    }
    Ok(())
}

/// The name of a recording: that of its file without the extension.
pub open spec fn recording_title(file_name: Seq<char>) -> Seq<char> {
    match names::stem(file_name) {
        Some(s) => if s.len() > 0 {
            s
        } else {
            "Imported recording"@
        },
        None => "Imported recording"@,
    }
}

pub fn recording_name(file_name: &str) -> (r: String)
    ensures
        r@ == recording_title(file_name@),
{
    match names::file_stem(file_name) {
        Some(s) => {
            if !s.as_str().is_empty() {
                return s;
            }
        },
        None => {},
    }
    "Imported recording".to_owned()
}

/// When an upload times out: at a fixed time, and earlier if nothing arrives for a while. Times
/// are in milliseconds of one clock.
#[derive(Clone, Copy, Debug, PartialEq, Eq, Structural)]
pub struct UploadDeadline {
    pub overall_ms: u64,
    pub idle_timeout_ms: u64,
}

impl UploadDeadline {
    /// When an upload that waits for more times out.
    pub fn next_deadline(self, now_ms: u64) -> (r: u64)
        ensures
            r == if now_ms + self.idle_timeout_ms <= self.overall_ms {
                now_ms + self.idle_timeout_ms
            } else {
                self.overall_ms as int
            },
    {
        if now_ms <= self.overall_ms && self.idle_timeout_ms <= self.overall_ms - now_ms {
            now_ms + self.idle_timeout_ms
        } else {
            self.overall_ms
        }
    }
}

/// A file that was received to its end is accepted exactly if it is not empty and its first bytes
/// are those of its format. What is kept of it is its size and its digest.
pub proof fn law_received_files_are_described_as_they_are(
    received: Seq<u8>,
    file_name: Seq<char>,
    format: ImportFormat,
    label: Seq<char>,
    media: Seq<char>,
    path: Seq<char>,
)
    requires
        received.len() <= u64::MAX,
    ensures
        file_outcome(received, file_name, format, label, media, path) is Ok <==> received.len() > 0
            && magic_matches(
            format,
            file_name,
            received.take(
                if received.len() < 16 {
                    received.len() as int
                } else {
                    16
                },
            ),
        ),
        file_outcome(received, file_name, format, label, media, path) matches Ok(f) ==> {
            &&& f.file_name == file_name
            &&& f.relative_path == path
            &&& f.format == format
            &&& f.format_label == label
            &&& f.content_type == media
            &&& f.size_bytes == received.len()
            &&& f.sha256 == text::hex_text(hashing::sha256_of(received))
        },
{
    assert(received.take(received.len() as int) =~= received);
}

/// The first bytes tell recordings, MCAP files, ZIP archives and videos from each other: no file
/// passes for two of them, and a table holds no zero byte.
pub proof fn law_signatures_tell_formats_apart(prefix: Seq<u8>, name: Seq<char>)
    ensures
        magic_matches(ImportFormat::Rrd, name, prefix) ==> prefix.len() >= 4 && prefix[0] == 0x52
            && prefix[1] == 0x52 && prefix[2] == 0x46 && 0x30 <= prefix[3] <= 0x32,
        magic_matches(ImportFormat::Mcap, name, prefix) ==> prefix.len() >= 8 && prefix[0] == 0x89
            && prefix[1] == 0x4d && prefix[2] == 0x43 && prefix[3] == 0x41 && prefix[4] == 0x50
            && prefix[5] == 0x30 && prefix[6] == 0x0d && prefix[7] == 0x0a,
        magic_matches(ImportFormat::Ros2BagZip, name, prefix) ==> prefix.len() >= 4 && prefix[0]
            == 0x50 && prefix[1] == 0x4b,
        magic_matches(ImportFormat::Video, name, prefix) ==> (names::lower_extension(name) == Some(
            "webm"@,
        ) && prefix.len() >= 4 && prefix[0] == 0x1a && prefix[1] == 0x45 && prefix[2] == 0xdf
            && prefix[3] == 0xa3) || (names::lower_extension(name) != Some("webm"@) && prefix.len()
            >= 8 && prefix[4] == 0x66 && prefix[5] == 0x74 && prefix[6] == 0x79 && prefix[7]
            == 0x70),
        magic_matches(ImportFormat::Csv, name, prefix) <==> !prefix.contains(0u8),
        magic_matches(ImportFormat::Rrd, name, prefix) ==> !magic_matches(
            ImportFormat::Mcap,
            name,
            prefix,
        ) && !magic_matches(ImportFormat::Ros2BagZip, name, prefix),
        magic_matches(ImportFormat::Mcap, name, prefix) ==> !magic_matches(
            ImportFormat::Ros2BagZip,
            name,
            prefix,
        ),
{
    if magic_matches(ImportFormat::Rrd, name, prefix) {
        let m = prefix.subrange(0, 3);
        assert(m[0] == prefix[0] && m[1] == prefix[1] && m[2] == prefix[2]);
    }
    if magic_matches(ImportFormat::Mcap, name, prefix) {
        let m = prefix.subrange(0, 8);
        assert(m[0] == prefix[0] && m[1] == prefix[1] && m[2] == prefix[2] && m[3] == prefix[3]
            && m[4] == prefix[4] && m[5] == prefix[5] && m[6] == prefix[6] && m[7] == prefix[7]);
    }
    if magic_matches(ImportFormat::Video, name, prefix) {
        if names::lower_extension(name) == Some("webm"@) {
            let m = prefix.subrange(0, 4);
            assert(m[0] == prefix[0] && m[1] == prefix[1] && m[2] == prefix[2] && m[3] == prefix[3]);
        } else {
            let m = prefix.subrange(4, 8);
            assert(m[0] == prefix[4] && m[1] == prefix[5] && m[2] == prefix[6] && m[3] == prefix[7]);
        }
    }
    if prefix.contains(0u8) {
        let i = choose|i: int| 0 <= i < prefix.len() && prefix[i] == 0u8;
        assert(prefix[i] == 0);
    }
}

/// A file is accepted under its trimmed name, which is one component of a path without control
/// characters, in the format of its extension, which is the one that was asked for.
pub proof fn law_accepted_names_are_safe(file_name: Option<Seq<char>>, requested: Seq<char>)
    ensures
        accepted_file(file_name, requested) matches Ok((name, format, label, media)) ==> {
            let ext = names::lower_extension(name);
            &&& file_name matches Some(raw) && name == text::trim(raw)
            &&& label == requested
            &&& 0 < name.len() && text::byte_len(name) <= 255
            &&& !name.contains('/') && !name.contains('\\')
            &&& name != "."@ && name != ".."@
            &&& forall|i: int| 0 <= i < name.len() ==> !text::is_control(#[trigger] name[i])
            &&& format == ImportFormat::Rrd <==> ext == Some("rrd"@)
            &&& format == ImportFormat::Mcap <==> ext == Some("mcap"@)
            &&& format == ImportFormat::Ros2BagZip <==> ext == Some("zip"@)
            &&& format == ImportFormat::Csv <==> ext == Some("csv"@)
            &&& format == ImportFormat::Video <==> ext == Some("mp4"@) || ext == Some("mov"@) || ext
                == Some("webm"@)
            &&& format == ImportFormat::Rrd ==> requested == "rrd"@
            &&& format == ImportFormat::Mcap ==> requested == "mcap"@
            &&& format == ImportFormat::Ros2BagZip ==> requested == "ros2-bag-zip"@
            &&& format == ImportFormat::Csv ==> requested == "csv"@
            &&& format == ImportFormat::Video ==> requested == "video"@
        },
{
    reveal_strlit("rrd");
    reveal_strlit("mcap");
    reveal_strlit("zip");
    reveal_strlit("csv");
    reveal_strlit("mp4");
    reveal_strlit("mov");
    reveal_strlit("webm");
    assert("rrd"@.len() == 3 && "mcap"@.len() == 4 && "zip"@.len() == 3 && "csv"@.len() == 3
        && "mp4"@.len() == 3 && "mov"@.len() == 3 && "webm"@.len() == 4);
    assert("rrd"@[0] == 'r' && "zip"@[0] == 'z' && "csv"@[0] == 'c' && "mp4"@[0] == 'm' && "mov"@[0]
        == 'm' && "mcap"@[0] == 'm' && "webm"@[0] == 'w' && "mp4"@[1] == 'p' && "mov"@[1] == 'o');
    match accepted_file(file_name, requested) {
        Ok((name, format, label, media)) => {
            if name.contains('/') {
                let i = choose|i: int| 0 <= i < name.len() && name[i] == '/';
                assert(names::has_char(name, '/'));
            }
            if name.contains('\\') {
                let i = choose|i: int| 0 <= i < name.len() && name[i] == '\\';
                assert(names::has_char(name, '\\'));
            }
        },
        Err(_) => {},
    }
}

/// A chunk of a file is taken in exactly if the file stays within its limit.
pub proof fn law_uploads_stay_within_their_limit(size: nat, chunk: nat, max: u64)
    ensures
        chunk_failure(size, chunk, max) is None <==> size + chunk <= max,
{
}

/// The bytes of a text that may be missing.
pub open spec fn optional_bytes(s: Option<Seq<char>>) -> Seq<u8> {
    match s {
        Some(t) => encode_utf8(t),
        None => encode_utf8(Seq::<char>::empty()),
    }
}

/// What identifies an import holds all that was asked for: where the texts of two imports are as
/// long as each other, they are identified alike only if project, device, source, format, file
/// and mapping are the same.
pub proof fn law_identities_tell_imports_apart(
    project: Seq<char>,
    device: Seq<char>,
    source: Option<Seq<char>>,
    format: Seq<char>,
    mapping: Option<Seq<u8>>,
    digest: Seq<char>,
    project2: Seq<char>,
    device2: Seq<char>,
    source2: Option<Seq<char>>,
    format2: Seq<char>,
    mapping2: Option<Seq<u8>>,
    digest2: Seq<char>,
)
    requires
        encode_utf8(project).len() == encode_utf8(project2).len(),
        encode_utf8(device).len() == encode_utf8(device2).len(),
        optional_bytes(source).len() == optional_bytes(source2).len(),
        encode_utf8(format).len() == encode_utf8(format2).len(),
        encode_utf8(digest).len() == encode_utf8(digest2).len(),
        import_identity(project, device, source, format, mapping, digest) == import_identity(
            project2,
            device2,
            source2,
            format2,
            mapping2,
            digest2,
        ),
    ensures
        encode_utf8(project) == encode_utf8(project2),
        encode_utf8(device) == encode_utf8(device2),
        optional_bytes(source) == optional_bytes(source2),
        encode_utf8(format) == encode_utf8(format2),
        encode_utf8(digest) == encode_utf8(digest2),
        (match mapping {
            Some(m) => m,
            None => Seq::empty(),
        }) == (match mapping2 {
            Some(m) => m,
            None => Seq::empty(),
        }),
{
    let m = match mapping {
        Some(m) => m,
        None => Seq::empty(),
    };
    let m2 = match mapping2 {
        Some(m) => m,
        None => Seq::empty(),
    };
    let z = seq![0u8];
    let p = encode_utf8(project) + z;
    let p2 = encode_utf8(project2) + z;
    let d = p + encode_utf8(device) + z;
    let d2 = p2 + encode_utf8(device2) + z;
    let s = d + optional_bytes(source) + z;
    let s2 = d2 + optional_bytes(source2) + z;
    let f = s + encode_utf8(format) + z;
    let f2 = s2 + encode_utf8(format2) + z;
    let g = f + encode_utf8(digest) + z;
    let g2 = f2 + encode_utf8(digest2) + z;
    assert(import_identity(project, device, source, format, mapping, digest) =~= g + m);
    assert(import_identity(project2, device2, source2, format2, mapping2, digest2) =~= g2 + m2);
    lemma_split(g, m, g2, m2);
    lemma_split(f + encode_utf8(digest), z, f2 + encode_utf8(digest2), z);
    lemma_split(f, encode_utf8(digest), f2, encode_utf8(digest2));
    lemma_split(s + encode_utf8(format), z, s2 + encode_utf8(format2), z);
    lemma_split(s, encode_utf8(format), s2, encode_utf8(format2));
    lemma_split(d + optional_bytes(source), z, d2 + optional_bytes(source2), z);
    lemma_split(d, optional_bytes(source), d2, optional_bytes(source2));
    lemma_split(p + encode_utf8(device), z, p2 + encode_utf8(device2), z);
    lemma_split(p, encode_utf8(device), p2, encode_utf8(device2));
    lemma_split(encode_utf8(project), z, encode_utf8(project2), z);
}

proof fn lemma_split(a: Seq<u8>, b: Seq<u8>, a2: Seq<u8>, b2: Seq<u8>)
    requires
        a + b == a2 + b2,
        a.len() == a2.len(),
    ensures
        a == a2,
        b == b2,
{
    let n = a.len() as int;
    assert((a + b).take(n) =~= a);
    assert((a2 + b2).take(n) =~= a2);
    assert((a + b).skip(n) =~= b);
    assert((a2 + b2).skip(n) =~= b2);
}

/// The file comes last, after the project, the device and the format that it is for; each field
/// goes where its name says, and no unknown field is taken.
pub proof fn law_files_come_last(fields: UploadFieldsView, c: CatalogView, name: Option<Seq<char>>)
    ensures
        field_outcome(fields, c, name) matches Ok(action) ==> {
            &&& fields.file is None
            &&& action == FieldAction::ReadFile <==> name == Some("file"@)
            &&& action == FieldAction::ReadFile ==> (fields.project_id matches Some(p) && p.len()
                > 0) && (fields.device_id matches Some(d) && d.len() > 0) && (
            fields.requested_format matches Some(f) && f.len() > 0)
            &&& action == FieldAction::ReadMapping <==> name == Some("mapping"@)
            &&& action == FieldAction::ReadText(TextField::ProjectId) <==> name == Some(
                "projectId"@,
            )
            &&& action == FieldAction::ReadText(TextField::DeviceId) <==> name == Some("deviceId"@)
            &&& action == FieldAction::ReadText(TextField::DataSourceId) <==> name == Some(
                "dataSourceId"@,
            )
            &&& action == FieldAction::ReadText(TextField::Format) <==> name == Some("format"@)
        },
{
    reveal_strlit("file");
    reveal_strlit("mapping");
    reveal_strlit("projectId");
    reveal_strlit("deviceId");
    reveal_strlit("dataSourceId");
    reveal_strlit("format");
    assert("file"@.len() == 4 && "mapping"@.len() == 7 && "projectId"@.len() == 9
        && "deviceId"@.len() == 8 && "dataSourceId"@.len() == 12 && "format"@.len() == 6);
}

/// A recording is named after its file, without the extension.
pub proof fn law_recordings_bear_the_name_of_their_file(file_name: Seq<char>, at: int)
    requires
        safe_file_name(file_name),
        0 < at < file_name.len(),
        file_name[at] == '.',
        forall|i: int| at < i < file_name.len() ==> file_name[i] != '.',
    ensures
        recording_title(file_name) == file_name.take(at),
{
    names::lemma_last_dot(file_name, at);
}

} // verus!
