//! Control of devices: leases, commands and what both need.

use crate::api;
use crate::api::{ApiError, ApiErrorKind, ApiErrorView};
use crate::catalog;
use crate::catalog::{Catalog, CatalogView, Epoch, StoredCommand, StoredCommandView};
use crate::discovery;
use crate::discovery_rules;
use crate::domain::{
    AccessMode, CommandReceipt, CommandReceiptView, ControlLease, ControlLeaseView, DeviceAssignment,
    DeviceAssignmentView, DeviceView, LiveSession, LiveSessionView, RequestControlLease,
    SendCommandRequest, SendCommandRequestView,
};
use crate::table;
use crate::table::Copied;
use crate::text;
use crate::time;
use vstd::prelude::*;

verus! {

pub const LEASE_DURATION_MS: i64 = 120_000;

pub open spec fn dispatch_failure(simulated_control_enabled: bool) -> Option<ApiErrorView> {
    if simulated_control_enabled {
        None
    } else {
        Some(
            api::failure(
                ApiErrorKind::Unavailable,
                "Actuator command dispatch is not configured; simulated control is disabled."@,
            ),
        )
    }
}

pub fn ensure_command_dispatch_available(simulated_control_enabled: bool) -> (r: Result<(), ApiError>)
    ensures
        discovery_rules::checked(r, dispatch_failure(simulated_control_enabled)),
{
    if simulated_control_enabled {
        Ok(())
    } else {
        Err(
            ApiError::new(
                ApiErrorKind::Unavailable,
                "Actuator command dispatch is not configured; simulated control is disabled.",
            ),
        )
    }
}

/// Why a device may not be controlled.
pub open spec fn device_failure(
    status: Seq<char>,
    health: Seq<char>,
    state_version: u64,
    expected: u64,
) -> Option<ApiErrorView> {
    if status != "online"@ {
        Some(api::conflict("Device must be online before control is allowed."@))
    } else if health == "restricted"@ || health == "critical"@ {
        Some(api::conflict("Device health does not allow control."@))
    } else if state_version != expected {
        Some(
            api::conflict("Device stateVersion changed; refresh before requesting control."@),
        )
    } else {
        None
    }
}

pub fn ensure_device_can_be_controlled(
    status: &str,
    health: &str,
    state_version: u64,
    expected_state_version: u64,
) -> (r: Result<(), ApiError>)
    ensures
        discovery_rules::checked(
            r,
            device_failure(status@, health@, state_version, expected_state_version),
        ),
{
    if !text::same(status, "online") {
        return Err(ApiError::conflict("Device must be online before control is allowed."));
    }
    if text::same(health, "restricted") || text::same(health, "critical") {
        return Err(ApiError::conflict("Device health does not allow control."));
    }
    if state_version != expected_state_version {
        return Err(
            ApiError::conflict("Device stateVersion changed; refresh before requesting control."),
        );
    }
    Ok(())
}

/// Whether the device of a session is known through an edge agent, which only observes.
pub open spec fn is_observed_only(c: CatalogView, device_id: Seq<char>) -> bool {
    c.devices.contains_key(device_id) && c.integrations.contains_key(
        c.devices[device_id].integration_id,
    ) && c.integrations[c.devices[device_id].integration_id].kind == "rms_edge"@
}

pub open spec fn controls(a: DeviceAssignmentView, project: Seq<char>, device: Seq<char>) -> bool {
    a.project_id == project && a.device_id == device && a.access_mode == AccessMode::Control
        && a.valid_to is None
}

/// Whether a project controls a device.
pub open spec fn is_controlled_by(c: CatalogView, project: Seq<char>, device: Seq<char>) -> bool {
    table::any_value(c.device_assignments, |a: DeviceAssignmentView| controls(a, project, device))
}

/// Why the scope of a session allows no control.
pub open spec fn scope_failure(c: CatalogView, s: LiveSessionView) -> Option<ApiErrorView> {
    if is_observed_only(c, s.device_id) {
        Some(
            api::conflict(
                "The RMS Edge Agent adapters are observation-only; actuator command dispatch is not configured."@,
            ),
        )
    } else if !is_controlled_by(c, s.project_id, s.device_id) || !catalog::source_is_assigned(
        c.data_assignments,
        s.project_id,
        s.data_source_id,
    ) {
        Some(api::conflict("LiveSession no longer has a control-capable Project assignment."@))
    } else {
        None
    }
}

pub fn ensure_session_control_scope(c: &Catalog, s: &LiveSession) -> (r: Result<(), ApiError>)
    ensures
        discovery_rules::checked(r, scope_failure(c@, s@)),
{
    let observed_only = match c.devices.get(s.device_id.as_str()) {
        Some(d) => match c.integrations.get(d.integration_id.as_str()) {
            Some(i) => text::same(i.kind.as_str(), "rms_edge"),
            None => false,
        },
        None => false,
    };
    if observed_only {
        return Err(
            ApiError::conflict(
                "The RMS Edge Agent adapters are observation-only; actuator command dispatch is not configured.",
            ),
        );
    }
    let test = |a: &DeviceAssignment| -> (b: bool)
        ensures
            b == controls(a@, s@.project_id, s@.device_id),
        {
            text::same(a.project_id.as_str(), s.project_id.as_str()) && text::same(
                a.device_id.as_str(),
                s.device_id.as_str(),
            ) && a.access_mode == AccessMode::Control && a.valid_to.is_none()
        };
    let controlled = c.device_assignments.find(
        test,
        Ghost(|a: DeviceAssignmentView| controls(a, s@.project_id, s@.device_id)),
    ).is_some();
    if !controlled || catalog::find_source_assignment(
        &c.data_assignments,
        s.project_id.as_str(),
        s.data_source_id.as_str(),
    ).is_none() {
        return Err(
            ApiError::conflict("LiveSession no longer has a control-capable Project assignment."),
        );
    }
    Ok(())
}

/// Whether the source of a session is live enough to control by.
pub open spec fn source_is_safe(c: CatalogView, s: LiveSessionView) -> bool {
    s.source_health == "fresh"@ && c.data_sources.contains_key(s.data_source_id)
        && c.data_sources[s.data_source_id].device_id == s.device_id
        && c.data_sources[s.data_source_id].status == "recording"@
}

pub open spec fn leases_of_session(session: Seq<char>) -> spec_fn(ControlLeaseView) -> bool {
    |l: ControlLeaseView| l.live_session_id == session
}

/// The catalog once a session has lost its leases.
pub open spec fn revoked(c: CatalogView, session: Seq<char>) -> CatalogView {
    if table::any_value(c.leases, leases_of_session(session)) {
        catalog::bumped(
            CatalogView { leases: table::without(c.leases, leases_of_session(session)), ..c },
        )
    } else {
        c
    }
}

pub open spec fn unsafe_source() -> ApiErrorView {
    api::conflict("Live source is not fresh and recording; control was revoked."@)
}

/// Checks the source of a session; where it is not safe, the session loses its leases.
pub fn ensure_session_source_is_control_safe(c: &mut Catalog, s: &LiveSession) -> (r: Result<
    (),
    ApiError,
>)
    ensures
        if source_is_safe(old(c)@, s@) {
            r is Ok && final(c)@ == old(c)@
        } else {
            r matches Err(e) && e@ == unsafe_source() && final(c)@ == revoked(old(c)@, s@.id)
        },
{
    let safe = text::same(s.source_health.as_str(), "fresh") && match c.data_sources.get(
        s.data_source_id.as_str(),
    ) {
        Some(d) => text::same(d.device_id.as_str(), s.device_id.as_str()) && text::same(
            d.status.as_str(),
            "recording",
        ),
        None => false,
    };
    if safe {
        return Ok(());
    }
    let ghost start = c@;
    let test = |l: &ControlLease| -> (b: bool)
        ensures
            b == (l@.live_session_id == s@.id),
        { text::same(l.live_session_id.as_str(), s.id.as_str()) };
    if c.leases.find(test, Ghost(leases_of_session(s@.id))).is_some() {
        let again = |l: &ControlLease| -> (b: bool)
            ensures
                b == (l@.live_session_id == s@.id),
            { text::same(l.live_session_id.as_str(), s.id.as_str()) };
        c.leases.remove_where(again, Ghost(leases_of_session(s@.id)));
        let _ = c.bump_version();
    }
    Err(ApiError::conflict("Live source is not fresh and recording; control was revoked."))
}

/// Whether a session can be controlled in.
pub open spec fn is_following(s: LiveSessionView) -> bool {
    s.status == "open"@ && s.play_state == "following"@
}

/// The leases of a device that have run out, by identifier.
pub open spec fn expired_leases(c: CatalogView, device: Seq<char>, now_ms: i64) -> Set<Seq<char>> {
    table::texts_where(
        c.leases,
        |l: ControlLeaseView| l.device_id == device && l.expires_at_ms <= now_ms,
        |l: ControlLeaseView| l.id,
    )
}

/// The catalog without the leases of a device that have run out.
pub open spec fn without_expired(c: CatalogView, device: Seq<char>, now_ms: i64) -> CatalogView {
    CatalogView {
        leases: table::without_keys(c.leases, expired_leases(c, device, now_ms)),
        ..c
    }
}

pub open spec fn is_leased(c: CatalogView, device: Seq<char>) -> bool {
    table::any_value(c.leases, |l: ControlLeaseView| l.device_id == device)
}

/// The epoch of the next lease of a device.
pub open spec fn next_epoch(c: CatalogView, device: Seq<char>) -> u64 {
    catalog::next_version(
        if c.lease_epochs.contains_key(device) {
            c.lease_epochs[device]
        } else {
            0
        },
    )
}

pub open spec fn new_lease(
    c: CatalogView,
    s: LiveSessionView,
    device: Seq<char>,
    id: Seq<char>,
    now_ms: i64,
) -> ControlLeaseView {
    let expires_at_ms = discovery::saturated(now_ms + LEASE_DURATION_MS);
    ControlLeaseView {
        id,
        live_session_id: s.id,
        device_id: device,
        holder_id: s.opened_by,
        holder_name: if s.opened_by == "operator-01"@ {
            "나"@
        } else {
            s.opened_by
        },
        expires_at: time::iso(expires_at_ms),
        epoch: next_epoch(c, device),
        expires_at_ms,
    }
}

/// The catalog with a new lease.
pub open spec fn with_lease(c: CatalogView, l: ControlLeaseView) -> CatalogView {
    catalog::bumped(
        CatalogView {
            leases: c.leases.insert(l.id, l),
            lease_epochs: c.lease_epochs.insert(l.device_id, l.epoch),
            ..c
        },
    )
}

/// The catalog after a request for a lease, and what it is answered.
pub open spec fn lease_request(
    c: CatalogView,
    enabled: bool,
    session_id: Seq<char>,
    expected: u64,
    id: Seq<char>,
    now_ms: i64,
) -> (CatalogView, Result<ControlLeaseView, ApiErrorView>) {
    if !enabled {
        (c, Err(dispatch_failure(enabled)->Some_0))
    } else if !c.live_sessions.contains_key(session_id) {
        (c, Err(api::not_found("LiveSession"@, session_id)))
    } else {
        let s = c.live_sessions[session_id];
        if !is_following(s) {
            (c, Err(api::conflict("Control requires an active following LiveSession."@)))
        } else if !source_is_safe(c, s) {
            (revoked(c, s.id), Err(unsafe_source()))
        } else if scope_failure(c, s) is Some {
            (c, Err(scope_failure(c, s)->Some_0))
        } else if !c.devices.contains_key(s.device_id) {
            (c, Err(api::not_found("Device"@, s.device_id)))
        } else {
            let d = c.devices[s.device_id];
            let fault = device_failure(d.status, d.health, d.state_version, expected);
            let current = without_expired(c, d.id, now_ms);
            if fault is Some {
                (c, Err(fault->Some_0))
            } else if is_leased(current, d.id) {
                (
                    current,
                    Err(
                        api::conflict(
                            "Another operator already holds the Device control lease."@,
                        ),
                    ),
                )
            } else {
                let l = new_lease(current, s, d.id, id, now_ms);
                (with_lease(current, l), Ok(l))
            }
        }
    }
}

fn drop_expired_leases(c: &mut Catalog, device: &str, now_ms: i64)
    ensures
        final(c)@ == without_expired(old(c)@, device@, now_ms),
{
    let pick = |l: &ControlLease| -> (o: Option<String>)
        ensures
            match o {
                Some(s) => l@.device_id == device@ && l@.expires_at_ms <= now_ms && s@ == l@.id,
                None => !(l@.device_id == device@ && l@.expires_at_ms <= now_ms),
            },
        {
            if text::same(l.device_id.as_str(), device) && l.expires_at_ms <= now_ms {
                Some(l.id.clone())
            } else {
                None
            }
        };
    let ids = c.leases.distinct(
        pick,
        Ghost(|l: ControlLeaseView| l.device_id == device@ && l.expires_at_ms <= now_ms),
        Ghost(|l: ControlLeaseView| l.id),
    );
    c.leases.remove_all(&ids);
}

/// Grants the lease of a session's device, if nobody holds it.
pub fn request_control_lease(
    c: &mut Catalog,
    simulated_control_enabled: bool,
    session_id: &str,
    request: &RequestControlLease,
    lease_id: &str,
    now_ms: i64,
) -> (r: Result<ControlLease, ApiError>)
    ensures
        (final(c)@, api::answer_view(r)) == lease_request(
            old(c)@,
            simulated_control_enabled,
            session_id@,
            request@.expected_device_version,
            lease_id@,
            now_ms,
        ),
{
    match ensure_command_dispatch_available(simulated_control_enabled) {
        Ok(()) => {},
        Err(e) => {
            return Err(e);
        },
    }
    let session = match c.live_sessions.get(session_id) {
        Some(s) => s.copied(),
        None => {
            return Err(ApiError::not_found("LiveSession", session_id));
        },
    };
    if !text::same(session.status.as_str(), "open") || !text::same(
        session.play_state.as_str(),
        "following",
    ) {
        return Err(ApiError::conflict("Control requires an active following LiveSession."));
    }
    match ensure_session_source_is_control_safe(c, &session) {
        Ok(()) => {},
        Err(e) => {
            return Err(e);
        },
    }
    match ensure_session_control_scope(c, &session) {
        Ok(()) => {},
        Err(e) => {
            return Err(e);
        },
    }
    let device = match c.devices.get(session.device_id.as_str()) {
        Some(d) => d.copied(),
        None => {
            return Err(ApiError::not_found("Device", session.device_id.as_str()));
        },
    };
    match ensure_device_can_be_controlled(
        device.status.as_str(),
        device.health.as_str(),
        device.state_version,
        request.expected_device_version,
    ) {
        Ok(()) => {},
        Err(e) => {
            return Err(e);
        },
    }
    drop_expired_leases(c, device.id.as_str(), now_ms);
    let held = |l: &ControlLease| -> (b: bool)
        ensures
            b == (l@.device_id == device@.id),
        { text::same(l.device_id.as_str(), device.id.as_str()) };
    if c.leases.find(held, Ghost(|l: ControlLeaseView| l.device_id == device@.id)).is_some() {
        return Err(
            ApiError::conflict("Another operator already holds the Device control lease."),
        );
    }
    let last: u64 = match c.lease_epochs.get(device.id.as_str()) {
        Some(e) => e.value,
        None => 0,
    };
    let epoch: u64 = catalog::version_after(last);
    let expires_at_ms: i64 = discovery::saturating_add(now_ms, LEASE_DURATION_MS);
    let holder_name = if text::same(session.opened_by.as_str(), "operator-01") {
        "나".to_owned()
    } else {
        session.opened_by.clone()
    };
    let lease = ControlLease {
        id: lease_id.to_owned(),
        live_session_id: session.id,
        device_id: device.id.clone(),
        holder_id: session.opened_by,
        holder_name,
        expires_at: time::iso_from_millis(expires_at_ms),
        epoch,
        expires_at_ms,
    };
    let _ = c.lease_epochs.insert(device.id, Epoch { value: epoch });
    let _ = c.leases.insert(lease_id.to_owned(), lease.copied());
    let _ = c.bump_version();
    Ok(lease)
}

/// The catalog after the release of a lease.
pub open spec fn lease_release(c: CatalogView, session_id: Seq<char>, lease_id: Seq<char>) -> Result<
    CatalogView,
    ApiErrorView,
> {
    if !c.leases.contains_key(lease_id) || c.leases[lease_id].live_session_id != session_id {
        Err(api::not_found("ControlLease"@, lease_id))
    } else {
        Ok(catalog::bumped(CatalogView { leases: c.leases.remove(lease_id), ..c }))
    }
}

/// Releases a lease of a session.
pub fn release_control_lease(c: &mut Catalog, session_id: &str, lease_id: &str) -> (r: Result<
    (),
    ApiError,
>)
    ensures
        match lease_release(old(c)@, session_id@, lease_id@) {
            Ok(after) => r is Ok && final(c)@ == after,
            Err(x) => r matches Err(e) && e@ == x && final(c)@ == old(c)@,
        },
{
    let owned = match c.leases.get(lease_id) {
        Some(l) => text::same(l.live_session_id.as_str(), session_id),
        None => false,
    };
    if !owned {
        return Err(ApiError::not_found("ControlLease", lease_id));
    }
    let _ = c.leases.remove(lease_id);
    let _ = c.bump_version();
    Ok(())
}

pub open spec fn is_current_lease(session: Seq<char>, now_ms: i64) -> spec_fn(ControlLeaseView) -> bool {
    |l: ControlLeaseView| l.live_session_id == session && l.expires_at_ms > now_ms
}

/// The lease of a session that has not run out.
pub open spec fn control_state(c: CatalogView, session_id: Seq<char>, now_ms: i64) -> Result<
    Option<ControlLeaseView>,
    ApiErrorView,
> {
    if !c.live_sessions.contains_key(session_id) {
        Err(api::not_found("LiveSession"@, session_id))
    } else {
        match table::first_key(c.leases, is_current_lease(session_id, now_ms)) {
            Some(k) => Ok(Some(c.leases[k])),
            None => Ok(None),
        }
    }
}

pub open spec fn state_view(r: Result<Option<ControlLease>, ApiError>) -> Result<
    Option<ControlLeaseView>,
    ApiErrorView,
> {
    match r {
        Ok(o) => Ok(table::view_option(o)),
        Err(e) => Err(e@),
    }
}

/// The lease of a session that has not run out.
pub fn get_control_state(c: &Catalog, session_id: &str, now_ms: i64) -> (r: Result<
    Option<ControlLease>,
    ApiError,
>)
    ensures
        state_view(r) == control_state(c@, session_id@, now_ms),
{
    if !c.live_sessions.contains(session_id) {
        return Err(ApiError::not_found("LiveSession", session_id));
    }
    let test = |l: &ControlLease| -> (b: bool)
        ensures
            b == (l@.live_session_id == session_id@ && l@.expires_at_ms > now_ms),
        { text::same(l.live_session_id.as_str(), session_id) && l.expires_at_ms > now_ms };
    match c.leases.find(test, Ghost(is_current_lease(session_id@, now_ms))) {
        Some(i) => Ok(Some(c.leases.value_at(i).copied())),
        None => Ok(None),
    }
}

/// Why the times of a command are refused, at an instant in nanoseconds.
pub open spec fn times_failure(issued_at: Seq<char>, expires_at: Seq<char>, now_ns: i128) -> Option<
    ApiErrorView,
> {
    match time::timestamp_read(issued_at) {
        Err(message) => Some(api::bad_request("Invalid issuedAt: "@ + message)),
        Ok(_) => match time::timestamp_read(expires_at) {
            Err(message) => Some(api::bad_request("Invalid expiresAt: "@ + message)),
            Ok(expires) => if expires <= now_ns {
                Some(api::conflict("The command validity window has expired."@))
            } else {
                None
            },
        },
    }
}

/// Checks the times of a command at an instant in nanoseconds.
pub fn validate_command_times(request: &SendCommandRequest, now_ns: i128) -> (r: Result<(), ApiError>)
    ensures
        discovery_rules::checked(
            r,
            times_failure(request@.issued_at, request@.expires_at, now_ns),
        ),
{
    match time::read_timestamp(request.issued_at.as_str()) {
        Ok(_) => {},
        Err(message) => {
            let text = text::line("Invalid issuedAt: ").add(message.as_str()).done();
            return Err(ApiError::bad_request(text.as_str()));
        },
    }
    match time::read_timestamp(request.expires_at.as_str()) {
        Ok(expires) => {
            if expires <= now_ns {
                return Err(ApiError::conflict("The command validity window has expired."));
            }
            Ok(())
        },
        Err(message) => {
            let text = text::line("Invalid expiresAt: ").add(message.as_str()).done();
            Err(ApiError::bad_request(text.as_str()))
        },
    }
}

pub open spec fn known_command(s: Seq<char>) -> bool {
    s == "pause_mission"@ || s == "resume_mission"@ || s == "safe_stop"@
}

/// Why a command is refused for its shape.
pub open spec fn command_failure(q: SendCommandRequestView, now_ns: i128) -> Option<ApiErrorView> {
    if text::trim(q.command_type).len() == 0 || text::trim(q.idempotency_key).len() == 0 {
        Some(api::bad_request("commandType and idempotencyKey are required."@))
    } else if !known_command(q.command_type) {
        Some(api::bad_request("Unsupported commandType."@))
    } else {
        times_failure(q.issued_at, q.expires_at, now_ns)
    }
}

fn validate_command(q: &SendCommandRequest, now_ns: i128) -> (r: Result<(), ApiError>)
    ensures
        discovery_rules::checked(r, command_failure(q@, now_ns)),
{
    if text::is_blank(q.command_type.as_str()) || text::is_blank(q.idempotency_key.as_str()) {
        return Err(ApiError::bad_request("commandType and idempotencyKey are required."));
    }
    let kind = q.command_type.as_str();
    if !(text::same(kind, "pause_mission") || text::same(kind, "resume_mission") || text::same(
        kind,
        "safe_stop",
    )) {
        return Err(ApiError::bad_request("Unsupported commandType."));
    }
    validate_command_times(q, now_ns)
}

/// Under which a command of a session is remembered.
pub open spec fn command_key(session_id: Seq<char>, key: Seq<char>) -> Seq<char> {
    session_id + ":"@ + key
}

fn same_optional(a: &Option<String>, b: &Option<String>) -> (r: bool)
    ensures
        r == (table::view_option(*a) == table::view_option(*b)),
{
    match (a, b) {
        (None, None) => true,
        (Some(x), Some(y)) => text::same(x.as_str(), y.as_str()),
        _ => false,
    }
}

/// Whether two requests are the same.
pub fn same_request(a: &SendCommandRequest, b: &SendCommandRequest) -> (r: bool)
    ensures
        r == (a@ == b@),
{
    let r = same_optional(&a.live_session_id, &b.live_session_id) && text::same(
        a.device_id.as_str(),
        b.device_id.as_str(),
    ) && text::same(a.command_type.as_str(), b.command_type.as_str())
        && a.expected_device_version == b.expected_device_version && text::same(
        a.idempotency_key.as_str(),
        b.idempotency_key.as_str(),
    ) && text::same(a.lease_id.as_str(), b.lease_id.as_str()) && a.lease_epoch == b.lease_epoch
        && same_optional(&a.session_mode, &b.session_mode) && text::same(
        a.issued_at.as_str(),
        b.issued_at.as_str(),
    ) && text::same(a.expires_at.as_str(), b.expires_at.as_str());
    proof {
        if r {
            assert(a@ =~= b@);
        }
    }
    r
}

/// Whether a request is meant for a session.
pub open spec fn context_fits(q: SendCommandRequestView, s: LiveSessionView) -> bool {
    (q.live_session_id matches Some(id) ==> id == s.id) && q.device_id == s.device_id && (
    q.session_mode matches Some(mode) ==> mode == "live"@)
}

/// Whether a lease allows a command of a session.
pub open spec fn lease_allows(
    l: ControlLeaseView,
    s: LiveSessionView,
    d: DeviceView,
    epoch: u64,
    now_ms: i64,
) -> bool {
    l.live_session_id == s.id && l.device_id == d.id && l.epoch == epoch && l.holder_id
        == s.opened_by && l.expires_at_ms > now_ms
}

/// Why a new command of a session is refused. The session's source is safe.
pub open spec fn order_failure(
    c: CatalogView,
    s: LiveSessionView,
    q: SendCommandRequestView,
    now_ms: i64,
) -> Option<ApiErrorView> {
    if scope_failure(c, s) is Some {
        scope_failure(c, s)
    } else if !context_fits(q, s) {
        Some(api::conflict("Command context does not match the LiveSession route."@))
    } else if !c.devices.contains_key(s.device_id) {
        Some(api::not_found("Device"@, s.device_id))
    } else {
        let d = c.devices[s.device_id];
        let fault = device_failure(d.status, d.health, d.state_version, q.expected_device_version);
        if fault is Some {
            fault
        } else if !c.leases.contains_key(q.lease_id) {
            Some(api::not_found("ControlLease"@, q.lease_id))
        } else if !lease_allows(c.leases[q.lease_id], s, d, q.lease_epoch, now_ms) {
            Some(
                api::conflict("The command lease is stale or does not match the LiveSession."@),
            )
        } else {
            None
        }
    }
}

fn check_order(c: &Catalog, s: &LiveSession, q: &SendCommandRequest, now_ms: i64) -> (r: Result<
    (),
    ApiError,
>)
    ensures
        discovery_rules::checked(r, order_failure(c@, s@, q@, now_ms)),
{
    match ensure_session_control_scope(c, s) {
        Ok(()) => {},
        Err(e) => {
            return Err(e);
        },
    }
    let session_fits = match &q.live_session_id {
        Some(id) => text::same(id.as_str(), s.id.as_str()),
        None => true,
    };
    let mode_fits = match &q.session_mode {
        Some(mode) => text::same(mode.as_str(), "live"),
        None => true,
    };
    if !session_fits || !text::same(q.device_id.as_str(), s.device_id.as_str()) || !mode_fits {
        return Err(ApiError::conflict("Command context does not match the LiveSession route."));
    }
    let device = match c.devices.get(s.device_id.as_str()) {
        Some(d) => d,
        None => {
            return Err(ApiError::not_found("Device", s.device_id.as_str()));
        },
    };
    match ensure_device_can_be_controlled(
        device.status.as_str(),
        device.health.as_str(),
        device.state_version,
        q.expected_device_version,
    ) {
        Ok(()) => {},
        Err(e) => {
            return Err(e);
        },
    }
    let lease = match c.leases.get(q.lease_id.as_str()) {
        Some(l) => l,
        None => {
            return Err(ApiError::not_found("ControlLease", q.lease_id.as_str()));
        },
    };
    if !text::same(lease.live_session_id.as_str(), s.id.as_str()) || !text::same(
        lease.device_id.as_str(),
        device.id.as_str(),
    ) || lease.epoch != q.lease_epoch || !text::same(
        lease.holder_id.as_str(),
        s.opened_by.as_str(),
    ) || lease.expires_at_ms <= now_ms {
        return Err(
            ApiError::conflict("The command lease is stale or does not match the LiveSession."),
        );
    }
    Ok(())
}

pub open spec fn acceptance(command_type: Seq<char>) -> Seq<char> {
    if command_type == "pause_mission"@ {
        "Mission 일시정지 요청을 수락했습니다."@
    } else if command_type == "resume_mission"@ {
        "Mission 재개 요청을 수락했습니다."@
    } else {
        "안전 정지 요청을 수락했습니다."@
    }
}

pub open spec fn new_receipt(
    s: LiveSessionView,
    q: SendCommandRequestView,
    id: Seq<char>,
    now: Seq<char>,
) -> CommandReceiptView {
    CommandReceiptView {
        command_id: id,
        live_session_id: s.id,
        command_type: q.command_type,
        status: "accepted"@,
        message: acceptance(q.command_type),
        created_at: now,
    }
}

/// The catalog after a command, and what it is answered.
pub open spec fn command_sent(
    c: CatalogView,
    enabled: bool,
    session_id: Seq<char>,
    q: SendCommandRequestView,
    id: Seq<char>,
    now_ms: i64,
    now_ns: i128,
    now: Seq<char>,
) -> (CatalogView, Result<CommandReceiptView, ApiErrorView>) {
    let key = command_key(session_id, q.idempotency_key);
    if !enabled {
        (c, Err(dispatch_failure(enabled)->Some_0))
    } else if command_failure(q, now_ns) is Some {
        (c, Err(command_failure(q, now_ns)->Some_0))
    } else if c.command_receipts.contains_key(key) {
        if c.command_receipts[key].request == q {
            (c, Ok(c.command_receipts[key].receipt))
        } else {
            (
                c,
                Err(
                    api::conflict(
                        "Idempotency key is already bound to a different command request."@,
                    ),
                ),
            )
        }
    } else if !c.live_sessions.contains_key(session_id) {
        (c, Err(api::not_found("LiveSession"@, session_id)))
    } else {
        let s = c.live_sessions[session_id];
        if !is_following(s) {
            (c, Err(api::conflict("Commands require an active following LiveSession."@)))
        } else if !source_is_safe(c, s) {
            (revoked(c, s.id), Err(unsafe_source()))
        } else if order_failure(c, s, q, now_ms) is Some {
            (c, Err(order_failure(c, s, q, now_ms)->Some_0))
        } else {
            let receipt = new_receipt(s, q, id, now);
            (
                catalog::bumped(
                    CatalogView {
                        command_receipts: c.command_receipts.insert(
                            key,
                            StoredCommandView { request: q, receipt },
                        ),
                        ..c
                    },
                ),
                Ok(receipt),
            )
        }
    }
}

/// Accepts a command under a lease. A command that is sent again is answered as before.
pub fn send_command(
    c: &mut Catalog,
    simulated_control_enabled: bool,
    session_id: &str,
    request: &SendCommandRequest,
    command_id: &str,
    now_ms: i64,
    now_ns: i128,
    now: &str,
) -> (r: Result<CommandReceipt, ApiError>)
    ensures
        (final(c)@, api::answer_view(r)) == command_sent(
            old(c)@,
            simulated_control_enabled,
            session_id@,
            request@,
            command_id@,
            now_ms,
            now_ns,
            now@,
        ),
{
    match ensure_command_dispatch_available(simulated_control_enabled) {
        Ok(()) => {},
        Err(e) => {
            return Err(e);
        },
    }
    match validate_command(request, now_ns) {
        Ok(()) => {},
        Err(e) => {
            return Err(e);
        },
    }
    let key = text::line(session_id).add(":").add(request.idempotency_key.as_str()).done();
    match c.command_receipts.get(key.as_str()) {
        Some(stored) => {
            if same_request(&stored.request, request) {
                return Ok(stored.receipt.copied());
            }
            return Err(
                ApiError::conflict(
                    "Idempotency key is already bound to a different command request.",
                ),
            );
        },
        None => {},
    }
    let session = match c.live_sessions.get(session_id) {
        Some(s) => s.copied(),
        None => {
            return Err(ApiError::not_found("LiveSession", session_id));
        },
    };
    if !text::same(session.status.as_str(), "open") || !text::same(
        session.play_state.as_str(),
        "following",
    ) {
        return Err(ApiError::conflict("Commands require an active following LiveSession."));
    }
    match ensure_session_source_is_control_safe(c, &session) {
        Ok(()) => {},
        Err(e) => {
            return Err(e);
        },
    }
    match check_order(c, &session, request, now_ms) {
        Ok(()) => {},
        Err(e) => {
            return Err(e);
        },
    }
    let message = if text::same(request.command_type.as_str(), "pause_mission") {
        "Mission 일시정지 요청을 수락했습니다."
    } else if text::same(request.command_type.as_str(), "resume_mission") {
        "Mission 재개 요청을 수락했습니다."
    } else {
        "안전 정지 요청을 수락했습니다."
    };
    let receipt = CommandReceipt {
        command_id: command_id.to_owned(),
        live_session_id: session.id,
        command_type: request.command_type.clone(),
        status: "accepted".to_owned(),
        message: message.to_owned(),
        created_at: now.to_owned(),
    };
    let _ = c.command_receipts.insert(
        key,
        StoredCommand { request: request.copied(), receipt: receipt.copied() },
    );
    let _ = c.bump_version();
    Ok(receipt)
}

/// Whether no device has two leases, and every lease is kept under its identifier.
pub open spec fn one_lease_per_device(m: Map<Seq<char>, ControlLeaseView>) -> bool {
    &&& forall|k: Seq<char>| #[trigger] m.contains_key(k) ==> m[k].id == k
    &&& forall|j: Seq<char>, k: Seq<char>|
        #[trigger] m.contains_key(j) && #[trigger] m.contains_key(k) && m[j].device_id
            == m[k].device_id ==> j == k
}

/// A request for a lease, whatever it is answered, leaves no device with two leases.
pub proof fn law_one_operator_holds_a_device(
    c: CatalogView,
    enabled: bool,
    session_id: Seq<char>,
    expected: u64,
    id: Seq<char>,
    now_ms: i64,
)
    requires
        one_lease_per_device(c.leases),
        !c.leases.contains_key(id),
    ensures
        one_lease_per_device(lease_request(c, enabled, session_id, expected, id, now_ms).0.leases),
{
    let (after, answer) = lease_request(c, enabled, session_id, expected, id, now_ms);
    if answer is Ok {
        let s = c.live_sessions[session_id];
        let d = c.devices[s.device_id];
        let current = without_expired(c, d.id, now_ms);
        assert forall|k: Seq<char>| #[trigger] current.leases.contains_key(k) implies current.leases[k].device_id
            != d.id by {}
    }
}

/// A granted lease has an epoch beyond all earlier ones of its device, as long as epochs last.
pub proof fn law_lease_epochs_grow(
    c: CatalogView,
    enabled: bool,
    session_id: Seq<char>,
    expected: u64,
    id: Seq<char>,
    now_ms: i64,
)
    requires
        lease_request(c, enabled, session_id, expected, id, now_ms).1 is Ok,
    ensures
        ({
            let (after, answer) = lease_request(c, enabled, session_id, expected, id, now_ms);
            let l = answer->Ok_0;
            &&& after.lease_epochs[l.device_id] == l.epoch
            &&& c.lease_epochs.contains_key(l.device_id) && c.lease_epochs[l.device_id] < u64::MAX
                ==> l.epoch > c.lease_epochs[l.device_id]
        }),
{
}

/// A command that is sent again, unchanged and in time, is answered as before and changes nothing.
pub proof fn law_repeated_commands_return_the_receipt(
    c: CatalogView,
    session_id: Seq<char>,
    q: SendCommandRequestView,
    id: Seq<char>,
    now_ms: i64,
    now_ns: i128,
    now: Seq<char>,
    other: Seq<char>,
    later_ms: i64,
    later_ns: i128,
    later: Seq<char>,
)
    requires
        command_sent(c, true, session_id, q, id, now_ms, now_ns, now).1 is Ok,
        command_failure(q, later_ns) is None,
    ensures
        ({
            let (after, answer) = command_sent(c, true, session_id, q, id, now_ms, now_ns, now);
            command_sent(after, true, session_id, q, other, later_ms, later_ns, later) == (
                after,
                answer,
            )
        }),
{
}

/// Whatever a session asks for while its source is not live, it gets nothing and keeps no lease.
pub proof fn law_unsafe_sources_revoke_control(
    c: CatalogView,
    session_id: Seq<char>,
    q: SendCommandRequestView,
    expected: u64,
    id: Seq<char>,
    now_ms: i64,
    now_ns: i128,
    now: Seq<char>,
)
    requires
        c.live_sessions.contains_key(session_id),
        c.live_sessions[session_id].id == session_id,
        is_following(c.live_sessions[session_id]),
        !source_is_safe(c, c.live_sessions[session_id]),
        command_failure(q, now_ns) is None,
        !c.command_receipts.contains_key(command_key(session_id, q.idempotency_key)),
    ensures
        ({
            let (after, answer) = command_sent(c, true, session_id, q, id, now_ms, now_ns, now);
            &&& answer is Err
            &&& !table::any_value(after.leases, leases_of_session(session_id))
            &&& after.command_receipts == c.command_receipts
        }),
        ({
            let (after, answer) = lease_request(c, true, session_id, expected, id, now_ms);
            &&& answer is Err
            &&& !table::any_value(after.leases, leases_of_session(session_id))
        }),
{
}

/// Nobody gets a lease on a device that is known through an edge agent, and no new command to it
/// is accepted.
pub proof fn law_observed_devices_are_never_controlled(
    c: CatalogView,
    enabled: bool,
    session_id: Seq<char>,
    q: SendCommandRequestView,
    expected: u64,
    id: Seq<char>,
    now_ms: i64,
    now_ns: i128,
    now: Seq<char>,
)
    requires
        c.live_sessions.contains_key(session_id) ==> is_observed_only(
            c,
            c.live_sessions[session_id].device_id,
        ),
        !c.command_receipts.contains_key(command_key(session_id, q.idempotency_key)),
    ensures
        lease_request(c, enabled, session_id, expected, id, now_ms).1 is Err,
        command_sent(c, enabled, session_id, q, id, now_ms, now_ns, now).1 is Err,
{
}

/// Where no dispatcher is configured, nobody gets a lease and no command is accepted.
pub proof fn law_control_fails_closed_without_a_dispatcher(
    c: CatalogView,
    session_id: Seq<char>,
    q: SendCommandRequestView,
    expected: u64,
    id: Seq<char>,
    now_ms: i64,
    now_ns: i128,
    now: Seq<char>,
)
    ensures
        lease_request(c, false, session_id, expected, id, now_ms) == (
            c,
            Err::<ControlLeaseView, ApiErrorView>(dispatch_failure(false)->Some_0),
        ),
        command_sent(c, false, session_id, q, id, now_ms, now_ns, now) == (
            c,
            Err::<CommandReceiptView, ApiErrorView>(dispatch_failure(false)->Some_0),
        ),
{
}

/// Whether a session follows a live source of its own device: it is open and following, its
/// source is fresh, and that source belongs to the device and records.
pub open spec fn follows_live(c: CatalogView, s: LiveSessionView) -> bool {
    &&& s.status == "open"@
    &&& s.play_state == "following"@
    &&& s.source_health == "fresh"@
    &&& c.data_sources.contains_key(s.data_source_id)
    &&& c.data_sources[s.data_source_id].status == "recording"@
    &&& c.data_sources[s.data_source_id].device_id == s.device_id
}

/// Whether the project of a session holds its device for control, and its source, at present.
pub open spec fn holds_for_control(c: CatalogView, s: LiveSessionView) -> bool {
    &&& exists|k: Seq<char>| #[trigger]
        c.device_assignments.contains_key(k) && c.device_assignments[k].project_id == s.project_id
            && c.device_assignments[k].device_id == s.device_id
            && c.device_assignments[k].access_mode == AccessMode::Control
            && c.device_assignments[k].valid_to is None
    &&& exists|k: Seq<char>| #[trigger]
        c.data_assignments.contains_key(k) && c.data_assignments[k].project_id == s.project_id
            && c.data_assignments[k].data_source_id == s.data_source_id
            && c.data_assignments[k].valid_to is None
}

/// Whether a device is online, in a health that allows control, in the state that was seen, and
/// not known through an edge agent.
pub open spec fn is_controllable(c: CatalogView, device: Seq<char>, expected: u64) -> bool {
    &&& c.devices.contains_key(device)
    &&& c.devices[device].status == "online"@
    &&& c.devices[device].health != "restricted"@
    &&& c.devices[device].health != "critical"@
    &&& c.devices[device].state_version == expected
    &&& c.integrations.contains_key(c.devices[device].integration_id)
        ==> c.integrations[c.devices[device].integration_id].kind != "rms_edge"@
}

/// A command is accepted for the first time exactly if it is a known one within its time, meant
/// for a session that follows a live source, for a device that its project controls and that is
/// in the expected state, under the lease that it names: one of this session, device, operator
/// and epoch that has not run out.
pub proof fn law_commands_need_a_current_lease(
    c: CatalogView,
    enabled: bool,
    session_id: Seq<char>,
    q: SendCommandRequestView,
    id: Seq<char>,
    now_ms: i64,
    now_ns: i128,
    now: Seq<char>,
)
    requires
        !c.command_receipts.contains_key(session_id + ":"@ + q.idempotency_key),
    ensures
        command_sent(c, enabled, session_id, q, id, now_ms, now_ns, now).1 is Ok <==> {
            let s = c.live_sessions[session_id];
            let l = c.leases[q.lease_id];
            &&& enabled
            &&& q.command_type == "pause_mission"@ || q.command_type == "resume_mission"@
                || q.command_type == "safe_stop"@
            &&& text::trim(q.idempotency_key).len() > 0
            &&& time::timestamp_read(q.issued_at) is Ok
            &&& time::timestamp_read(q.expires_at) matches Ok(end) && end > now_ns
            &&& c.live_sessions.contains_key(session_id)
            &&& q.live_session_id is None || q.live_session_id == Some(s.id)
            &&& q.session_mode is None || q.session_mode == Some("live"@)
            &&& q.device_id == s.device_id
            &&& follows_live(c, s)
            &&& holds_for_control(c, s)
            &&& is_controllable(c, s.device_id, q.expected_device_version)
            &&& c.leases.contains_key(q.lease_id)
            &&& l.live_session_id == s.id
            &&& l.device_id == c.devices[s.device_id].id
            &&& l.holder_id == s.opened_by
            &&& l.epoch == q.lease_epoch
            &&& l.expires_at_ms > now_ms
        },
{
    reveal_strlit("pause_mission");
    reveal_strlit("resume_mission");
    reveal_strlit("safe_stop");
    if q.command_type == "pause_mission"@ || q.command_type == "resume_mission"@ || q.command_type
        == "safe_stop"@ {
        assert(q.command_type[0] == 'p' || q.command_type[0] == 'r' || q.command_type[0] == 's');
        assert(q.command_type.last() == 'n' || q.command_type.last() == 'p');
        lemma_trim_keeps(q.command_type);
    }
    if c.live_sessions.contains_key(session_id) {
        let s = c.live_sessions[session_id];
        assert(is_controlled_by(c, s.project_id, s.device_id) == exists|k: Seq<char>| #[trigger]
            c.device_assignments.contains_key(k) && c.device_assignments[k].project_id
                == s.project_id && c.device_assignments[k].device_id == s.device_id
                && c.device_assignments[k].access_mode == AccessMode::Control
                && c.device_assignments[k].valid_to is None);
        assert(catalog::source_is_assigned(c.data_assignments, s.project_id, s.data_source_id)
            == exists|k: Seq<char>| #[trigger]
            c.data_assignments.contains_key(k) && c.data_assignments[k].project_id == s.project_id
                && c.data_assignments[k].data_source_id == s.data_source_id
                && c.data_assignments[k].valid_to is None);
    }
}

proof fn lemma_trim_keeps(s: Seq<char>)
    requires
        s.len() > 0,
        !text::is_space(s[0]),
        !text::is_space(s.last()),
    ensures
        text::trim(s) == s,
{
}

/// An accepted command is answered and remembered with what it asked for, and changes nothing
/// but the version of the catalog.
pub proof fn law_accepted_commands_are_remembered(
    c: CatalogView,
    session_id: Seq<char>,
    q: SendCommandRequestView,
    id: Seq<char>,
    now_ms: i64,
    now_ns: i128,
    now: Seq<char>,
)
    requires
        !c.command_receipts.contains_key(session_id + ":"@ + q.idempotency_key),
        command_sent(c, true, session_id, q, id, now_ms, now_ns, now).1 is Ok,
    ensures
        ({
            let (after, answer) = command_sent(c, true, session_id, q, id, now_ms, now_ns, now);
            let receipt = answer->Ok_0;
            let key = session_id + ":"@ + q.idempotency_key;
            &&& receipt.command_id == id
            &&& receipt.live_session_id == c.live_sessions[session_id].id
            &&& receipt.command_type == q.command_type
            &&& receipt.status == "accepted"@
            &&& receipt.created_at == now
            &&& after.command_receipts.contains_key(key)
            &&& after.command_receipts[key].request == q
            &&& after.command_receipts[key].receipt == receipt
            &&& after.command_receipts.remove(key) == c.command_receipts
            &&& after.leases == c.leases
            &&& after.lease_epochs == c.lease_epochs
            &&& after.devices == c.devices
            &&& after.live_sessions == c.live_sessions
            &&& after.data_sources == c.data_sources
            &&& c.snapshot_version < u64::MAX ==> after.snapshot_version == c.snapshot_version + 1
        }),
{
    let (after, answer) = command_sent(c, true, session_id, q, id, now_ms, now_ns, now);
    let key = session_id + ":"@ + q.idempotency_key;
    assert(after.command_receipts.remove(key) =~= c.command_receipts);
}

/// A command whose key is bound to another request is refused and changes nothing.
pub proof fn law_keys_bind_one_command(
    c: CatalogView,
    session_id: Seq<char>,
    q: SendCommandRequestView,
    id: Seq<char>,
    now_ms: i64,
    now_ns: i128,
    now: Seq<char>,
)
    requires
        c.command_receipts.contains_key(session_id + ":"@ + q.idempotency_key),
        c.command_receipts[session_id + ":"@ + q.idempotency_key].request != q,
    ensures
        command_sent(c, true, session_id, q, id, now_ms, now_ns, now).0 == c,
        command_sent(c, true, session_id, q, id, now_ms, now_ns, now).1 is Err,
{
}

/// A lease is granted exactly if the session follows a live source, its project controls the
/// device, the device is in the expected state, and nobody holds a lease on it that has not run
/// out.
pub proof fn law_leases_need_a_free_controllable_device(
    c: CatalogView,
    enabled: bool,
    session_id: Seq<char>,
    expected: u64,
    id: Seq<char>,
    now_ms: i64,
)
    requires
        forall|k: Seq<char>| #[trigger] c.leases.contains_key(k) ==> c.leases[k].id == k,
        forall|k: Seq<char>| #[trigger] c.devices.contains_key(k) ==> c.devices[k].id == k,
    ensures
        lease_request(c, enabled, session_id, expected, id, now_ms).1 is Ok <==> {
            let s = c.live_sessions[session_id];
            &&& enabled
            &&& c.live_sessions.contains_key(session_id)
            &&& follows_live(c, s)
            &&& holds_for_control(c, s)
            &&& is_controllable(c, s.device_id, expected)
            &&& forall|k: Seq<char>| #[trigger]
                c.leases.contains_key(k) && c.leases[k].device_id == s.device_id
                    ==> c.leases[k].expires_at_ms <= now_ms
        },
{
    if c.live_sessions.contains_key(session_id) {
        let s = c.live_sessions[session_id];
        assert(is_controlled_by(c, s.project_id, s.device_id) == exists|k: Seq<char>| #[trigger]
            c.device_assignments.contains_key(k) && c.device_assignments[k].project_id
                == s.project_id && c.device_assignments[k].device_id == s.device_id
                && c.device_assignments[k].access_mode == AccessMode::Control
                && c.device_assignments[k].valid_to is None);
        assert(catalog::source_is_assigned(c.data_assignments, s.project_id, s.data_source_id)
            == exists|k: Seq<char>| #[trigger]
            c.data_assignments.contains_key(k) && c.data_assignments[k].project_id == s.project_id
                && c.data_assignments[k].data_source_id == s.data_source_id
                && c.data_assignments[k].valid_to is None);
        let current = without_expired(c, s.device_id, now_ms);
        assert forall|k: Seq<char>| #[trigger] current.leases.contains_key(k) == (
        c.leases.contains_key(k) && !(c.leases[k].device_id == s.device_id
            && c.leases[k].expires_at_ms <= now_ms)) by {}
        assert(is_leased(current, s.device_id) == exists|k: Seq<char>| #[trigger]
            c.leases.contains_key(k) && c.leases[k].device_id == s.device_id
                && c.leases[k].expires_at_ms > now_ms) by {
            if is_leased(current, s.device_id) {
                let k = choose|k: Seq<char>| #[trigger]
                    current.leases.contains_key(k) && current.leases[k].device_id == s.device_id;
                assert(c.leases.contains_key(k));
            }
            if exists|k: Seq<char>| #[trigger]
                c.leases.contains_key(k) && c.leases[k].device_id == s.device_id
                    && c.leases[k].expires_at_ms > now_ms {
                let k = choose|k: Seq<char>| #[trigger]
                    c.leases.contains_key(k) && c.leases[k].device_id == s.device_id
                        && c.leases[k].expires_at_ms > now_ms;
                assert(current.leases.contains_key(k));
            }
        }
    }
}

/// A granted lease is the session's own, for its device and the operator who opened it, lasts two
/// minutes and is kept. Leases of other devices stay as they are.
pub proof fn law_granted_leases_last_two_minutes(
    c: CatalogView,
    session_id: Seq<char>,
    expected: u64,
    id: Seq<char>,
    now_ms: i64,
    k: Seq<char>,
)
    requires
        forall|j: Seq<char>| #[trigger] c.leases.contains_key(j) ==> c.leases[j].id == j,
        forall|j: Seq<char>| #[trigger] c.devices.contains_key(j) ==> c.devices[j].id == j,
        lease_request(c, true, session_id, expected, id, now_ms).1 is Ok,
        now_ms <= i64::MAX - 120_000,
    ensures
        ({
            let (after, answer) = lease_request(c, true, session_id, expected, id, now_ms);
            let s = c.live_sessions[session_id];
            let l = answer->Ok_0;
            &&& l.id == id
            &&& l.live_session_id == s.id
            &&& l.device_id == s.device_id
            &&& l.holder_id == s.opened_by
            &&& l.expires_at_ms == now_ms + 120_000
            &&& l.expires_at == time::iso(l.expires_at_ms)
            &&& after.leases.contains_key(id) && after.leases[id] == l
            &&& k != id && c.leases.contains_key(k) && c.leases[k].device_id != s.device_id
                ==> after.leases.contains_key(k) && after.leases[k] == c.leases[k]
            &&& k != id && after.leases.contains_key(k) ==> c.leases.contains_key(k)
                && after.leases[k] == c.leases[k]
            &&& after.devices == c.devices
            &&& after.live_sessions == c.live_sessions
            &&& after.command_receipts == c.command_receipts
        }),
{
}

/// A session releases only its own lease. Once released it is gone, and nothing else is.
pub proof fn law_released_leases_are_gone(
    c: CatalogView,
    session_id: Seq<char>,
    lease_id: Seq<char>,
    k: Seq<char>,
)
    ensures
        lease_release(c, session_id, lease_id) is Ok <==> c.leases.contains_key(lease_id)
            && c.leases[lease_id].live_session_id == session_id,
        lease_release(c, session_id, lease_id) matches Ok(after) ==> {
            &&& !after.leases.contains_key(lease_id)
            &&& k != lease_id ==> after.leases.contains_key(k) == c.leases.contains_key(k)
            &&& k != lease_id && c.leases.contains_key(k) ==> after.leases[k] == c.leases[k]
            &&& after.lease_epochs == c.lease_epochs
            &&& after.live_sessions == c.live_sessions
            &&& after.command_receipts == c.command_receipts
            &&& after.devices == c.devices
            &&& c.snapshot_version < u64::MAX ==> after.snapshot_version == c.snapshot_version + 1
        },
{
}

/// The control state of a session shows a lease of that session that has not run out, and shows
/// none only where there is none.
pub proof fn law_control_states_show_current_leases(c: CatalogView, session_id: Seq<char>, now_ms: i64)
    requires
        c.leases.dom().finite(),
        c.live_sessions.contains_key(session_id),
    ensures
        match control_state(c, session_id, now_ms) {
            Ok(Some(l)) => l.live_session_id == session_id && l.expires_at_ms > now_ms && exists|
                k: Seq<char>,
            | #[trigger]
                c.leases.contains_key(k) && c.leases[k] == l,
            Ok(None) => forall|k: Seq<char>| #[trigger]
                c.leases.contains_key(k) ==> c.leases[k].live_session_id != session_id
                    || c.leases[k].expires_at_ms <= now_ms,
            Err(_) => false,
        },
{
    let p = is_current_lease(session_id, now_ms);
    if table::any_value(c.leases, p) {
        table::lemma_first_key(c.leases, p);
    } else {
        assert forall|k: Seq<char>| #[trigger] c.leases.contains_key(k) implies !p(c.leases[k]) by {}
    }
}

} // verus!
