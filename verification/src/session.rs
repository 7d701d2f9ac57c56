//! Session decisions.
//!
//! Each accepted connection is validated before it may upgrade: the
//! role-discriminating `machine-type` header names a device or a CLI;
//! a device must present a registered `machine-id`, a CLI is taken at its
//! word.  A rejected handshake is answered with a status code and a
//! structured JSON body before any session exists.  Once upgraded, a CLI
//! connection carries exactly one state operation, dispatched here against
//! the store.

use vstd::prelude::*;

use crate::errors::{ProtocolError, ValidationError};
use crate::ops::{StateAction, StateOperationMessage};
use crate::store::{
    lookup_device, lookup_environment, lookup_project, EnvironmentView, ProjectView,
    StateRecordView, StateStore, StoreView,
};
use crate::drift::destroy_sentinel;

verus! {

/// The two client roles that may hold a session.
#[derive(PartialEq, Eq, Structural, Clone, Copy, Debug)]
pub enum ListenerType {
    Device,
    CLI,
}

/// `machine-type` header values and the roles they name.
pub open spec fn machine_type_spec(value: Option<Seq<char>>) -> Option<ListenerType> {
    match value {
        Some(v) => if v == "device"@ {
            Some(ListenerType::Device)
        } else if v == "cli"@ {
            Some(ListenerType::CLI)
        } else {
            None
        },
        None => None,
    }
}

/// Reads the `machine-type` header: `device` and `cli` name the two roles,
/// anything else (or no header) names none.
pub fn parse_machine_type(value: &Option<String>) -> (r: Option<ListenerType>)
    ensures
        r == machine_type_spec(value.deep_view()),
{
    let v = match value {
        Some(v) => v,
        None => {
            return None;
        },
    };
    let device_word: String = "device".to_owned();
    let cli_word: String = "cli".to_owned();
    if v.eq(&device_word) {
        Some(ListenerType::Device)
    } else if v.eq(&cli_word) {
        Some(ListenerType::CLI)
    } else {
        None
    }
}

/// A device is registered when its machine id has a row.
pub fn is_device_registered(store: &StateStore, machine_id: &String) -> (r: bool)
    ensures
        r == (lookup_device(store@.devices, machine_id@) is Some),
{
    match store.device_by_machine_id(machine_id) {
        Some(_) => true,
        None => false,
    }
}

/// Validates a connection before it upgrades.  A device must present a
/// machine id and be registered; a CLI is accepted without validation.
pub fn validate_connection(
    listener_type: &ListenerType,
    machine_id: &Option<String>,
    store: &StateStore,
) -> (r: Result<(), ValidationError>)
    ensures
        match listener_type {
            ListenerType::CLI => r is Ok,
            ListenerType::Device => match machine_id.deep_view() {
                None => r == Result::<(), ValidationError>::Err(ValidationError::NoMachineIdSet),
                Some(m) => if lookup_device(store@.devices, m) is Some {
                    r is Ok
                } else {
                    r == Result::<(), ValidationError>::Err(ValidationError::DeviceNotRegistered)
                },
            },
        },
{
    match listener_type {
        ListenerType::CLI => Ok(()),
        ListenerType::Device => {
            let m = match machine_id {
                None => {
                    return Err(ValidationError::NoMachineIdSet);
                },
                Some(m) => m,
            };
            if is_device_registered(store, m) {
                Ok(())
            } else {
                Err(ValidationError::DeviceNotRegistered)
            }
        },
    }
}

/// The body of a rejection: a JSON object with the reason and a null data
/// field.
pub open spec fn json_msg_body_text(msg: Seq<char>) -> Seq<char> {
    "{\"msg\": \""@ + msg + "\", \"data\": null}"@
}

/// Builds the structured rejection body `{"msg": <reason>, "data": null}`.
/// The reason must need no escaping; every reason this crate sends is a
/// fixed word.
pub fn json_msg_body(msg: &str) -> (r: String)
    requires
        forall|i: int| 0 <= i < msg@.len() ==> msg@[i] != '"' && msg@[i] != '\\',
    ensures
        r@ == json_msg_body_text(msg@),
{
    let mut body: String = "{\"msg\": \"".to_owned();
    body.append(msg);
    body.append("\", \"data\": null}");
    body
}

/// The reason sent for each failed validation.
pub open spec fn rejection_message(err: ValidationError) -> Seq<char> {
    match err {
        ValidationError::NoMachineIdSet => "No machine-id set in header"@,
        ValidationError::DeviceNotRegistered => "Device not registered"@,
    }
}

/// The HTTP status sent for each failed validation: `400` for a missing
/// machine id, `404` for an unregistered device.
pub open spec fn rejection_status(err: ValidationError) -> u16 {
    match err {
        ValidationError::NoMachineIdSet => 400u16,
        ValidationError::DeviceNotRegistered => 404u16,
    }
}

/// The status code and JSON body answering a rejected handshake.
pub fn rejection_response(err: &ValidationError) -> (r: (u16, String))
    ensures
        r.0 == rejection_status(*err),
        r.1@ == json_msg_body_text(rejection_message(*err)),
{
    match err {
        ValidationError::NoMachineIdSet => {
            proof {
                reveal_strlit("No machine-id set in header");
            }
            (400, json_msg_body("No machine-id set in header"))
        },
        ValidationError::DeviceNotRegistered => {
            proof {
                reveal_strlit("Device not registered");
            }
            (404, json_msg_body("Device not registered"))
        },
    }
}

/// An ASCII capital folded to its small form; everything else unchanged.
pub open spec fn ascii_lower(c: char) -> char {
    if 'A' <= c && c <= 'Z' {
        (((c as u8) + 32) as char)
    } else {
        c
    }
}

pub open spec fn lower_seq(s: Seq<char>) -> Seq<char> {
    s.map_values(|c: char| ascii_lower(c))
}

fn lower_char(c: char) -> (r: char)
    ensures
        r == ascii_lower(c),
{
    if 'A' <= c && c <= 'Z' {
        ((c as u8) + 32) as char
    } else {
        c
    }
}

/// Compares a header value with a pattern, folding ASCII case on the
/// header side only.
fn lower_eq(h: &str, pattern: &str) -> (r: bool)
    ensures
        r == (lower_seq(h@) == pattern@),
{
    let n = h.unicode_len();
    if n != pattern.unicode_len() {
        return false;
    }
    let mut k: usize = 0;
    while k < n
        invariant
            k <= n,
            n == h@.len(),
            n == pattern@.len(),
            forall|j: int| 0 <= j < k ==> ascii_lower(#[trigger] h@[j]) == pattern@[j],
        decreases n - k,
    {
        if lower_char(h.get_char(k)) != pattern.get_char(k) {
            assert(lower_seq(h@)[k as int] != pattern@[k as int]);
            return false;
        }
        k += 1;
    }
    proof {
        assert(lower_seq(h@) =~= pattern@);
    }
    true
}

/// The characters that separate tokens in a `Connection` header.
pub open spec fn is_delim(c: char) -> bool {
    c == ' ' || c == ','
}

/// Where the delimiter-free run starting at `i` ends.
pub open spec fn run_end(s: Seq<char>, i: int) -> int
    decreases s.len() - i,
{
    if 0 <= i < s.len() && !is_delim(s[i]) {
        run_end(s, i + 1)
    } else {
        i
    }
}

/// The header, split on spaces and commas, has a piece that names
/// `upgrade` up to ASCII case.
pub open spec fn has_upgrade_token(s: Seq<char>) -> bool {
    exists|i: int|
        0 <= i <= s.len() && (i == 0 || is_delim(s[i - 1])) && lower_seq(
            s.subrange(i, run_end(s, i)),
        ) == "upgrade"@
}

fn connection_names_upgrade(h: &str) -> (r: bool)
    ensures
        r == has_upgrade_token(h@),
{
    let n = h.unicode_len();
    let mut i: usize = 0;
    while i < n
        invariant
            i <= n,
            n == h@.len(),
            forall|p: int|
                0 <= p < i ==> !((p == 0 || is_delim(h@[p - 1])) && lower_seq(
                    #[trigger] h@.subrange(p, run_end(h@, p)),
                ) == "upgrade"@),
        decreases n - i,
    {
        let boundary = i == 0 || {
            let prev = h.get_char(i - 1);
            prev == ' ' || prev == ','
        };
        if boundary {
            let mut j: usize = i;
            while j < n && h.get_char(j) != ' ' && h.get_char(j) != ','
                invariant
                    i <= j <= n,
                    n == h@.len(),
                    run_end(h@, i as int) == run_end(h@, j as int),
                decreases n - j,
            {
                j += 1;
            }
            proof {
                assert(run_end(h@, j as int) == j as int);
                assert(run_end(h@, i as int) == j as int);
            }
            if lower_eq(h.substring_char(i, j), "upgrade") {
                proof {
                    assert(lower_seq(h@.subrange(i as int, run_end(h@, i as int)))
                        == "upgrade"@);
                }
                return true;
            }
        }
        i += 1;
    }
    proof {
        reveal_strlit("upgrade");
        assert forall|p: int|
            0 <= p <= h@.len() implies !((p == 0 || is_delim(h@[p - 1])) && lower_seq(
            #[trigger] h@.subrange(p, run_end(h@, p)),
        ) == "upgrade"@) by {
            if p == h@.len() {
                assert(h@.subrange(p, run_end(h@, p)) =~= Seq::<char>::empty());
                assert(lower_seq(h@.subrange(p, run_end(h@, p))).len() == 0);
            }
        }
    }
    false
}

/// The header set of a websocket upgrade: a GET at `/socket` over at
/// least HTTP/1.1, a `Connection` header naming `upgrade`, an `Upgrade`
/// header naming `websocket`, protocol version `13` and a key.  Anything
/// else is a plain request for the REST surface.
pub open spec fn websocket_request_spec(
    method_is_get: bool,
    version_at_least_http11: bool,
    connection: Option<Seq<char>>,
    upgrade: Option<Seq<char>>,
    websocket_version: Option<Seq<char>>,
    has_key: bool,
    uri: Seq<char>,
) -> bool {
    &&& method_is_get
    &&& version_at_least_http11
    &&& match connection {
        Some(h) => has_upgrade_token(h),
        None => false,
    }
    &&& match upgrade {
        Some(h) => lower_seq(h) == "websocket"@,
        None => false,
    }
    &&& match websocket_version {
        Some(h) => h == "13"@,
        None => false,
    }
    &&& has_key
    &&& uri == "/socket"@
}

/// Decides whether a connection asks for the websocket upgrade, from the
/// plain header values the transport extracted.
pub fn is_websocket_request(
    method_is_get: bool,
    version_at_least_http11: bool,
    connection: &Option<String>,
    upgrade: &Option<String>,
    websocket_version: &Option<String>,
    has_key: bool,
    uri: &String,
) -> (r: bool)
    ensures
        r == websocket_request_spec(
            method_is_get,
            version_at_least_http11,
            connection.deep_view(),
            upgrade.deep_view(),
            websocket_version.deep_view(),
            has_key,
            uri@,
        ),
{
    if !method_is_get || !version_at_least_http11 || !has_key {
        return false;
    }
    let socket_path: String = "/socket".to_owned();
    let version_word: String = "13".to_owned();
    proof {
        reveal_strlit("/socket");
        reveal_strlit("13");
        assert(socket_path@ =~= "/socket"@);
        assert(version_word@ =~= "13"@);
    }
    if !uri.eq(&socket_path) {
        return false;
    }
    match websocket_version {
        Some(v) => {
            if !v.eq(&version_word) {
                return false;
            }
        },
        None => {
            return false;
        },
    }
    match upgrade {
        Some(h) => {
            if !lower_eq(h.as_str(), "websocket") {
                return false;
            }
        },
        None => {
            return false;
        },
    }
    match connection {
        Some(h) => connection_names_upgrade(h.as_str()),
        None => false,
    }
}

/// The REST endpoints of the boundary surface.
#[derive(PartialEq, Eq, Structural, Clone, Copy, Debug)]
pub enum RestRoute {
    DeviceCreate,
    DeviceDelete,
    UserCreate,
    UserDelete,
    EnrollDevice,
}

/// Which endpoint a plain request addresses, if any.
pub open spec fn route_spec(uri: Seq<char>, is_post: bool, is_delete: bool) -> Option<RestRoute> {
    if uri == "/device"@ && is_post {
        Some(RestRoute::DeviceCreate)
    } else if uri == "/device"@ && is_delete {
        Some(RestRoute::DeviceDelete)
    } else if uri == "/user"@ && is_post {
        Some(RestRoute::UserCreate)
    } else if uri == "/user"@ && is_delete {
        Some(RestRoute::UserDelete)
    } else if uri == "/enroll_device"@ && is_post {
        Some(RestRoute::EnrollDevice)
    } else {
        None
    }
}

/// Routes a plain request to its REST endpoint.
pub fn match_route(uri: &String, is_post: bool, is_delete: bool) -> (r: Option<RestRoute>)
    ensures
        r == route_spec(uri@, is_post, is_delete),
{
    let device: String = "/device".to_owned();
    let user: String = "/user".to_owned();
    let enroll: String = "/enroll_device".to_owned();
    proof {
        reveal_strlit("/device");
        reveal_strlit("/user");
        reveal_strlit("/enroll_device");
        assert(device@ =~= "/device"@);
        assert(user@ =~= "/user"@);
        assert(enroll@ =~= "/enroll_device"@);
    }
    if uri.eq(&device) && is_post {
        Some(RestRoute::DeviceCreate)
    } else if uri.eq(&device) && is_delete {
        Some(RestRoute::DeviceDelete)
    } else if uri.eq(&user) && is_post {
        Some(RestRoute::UserCreate)
    } else if uri.eq(&user) && is_delete {
        Some(RestRoute::UserDelete)
    } else if uri.eq(&enroll) && is_post {
        Some(RestRoute::EnrollDevice)
    } else {
        None
    }
}

/// The project row an Up or Down will use: the existing one, or the fresh
/// row it creates.
pub open spec fn project_for(s: StoreView, next_project_id: u64, name: Seq<char>, now: i64) -> ProjectView {
    match lookup_project(s.projects, name) {
        Some(p) => p,
        None => ProjectView { id: next_project_id, name, created_at: now },
    }
}

/// The projects table after an Up or Down.
pub open spec fn projects_after(s: StoreView, next_project_id: u64, name: Seq<char>, now: i64) -> Seq<
    ProjectView,
> {
    match lookup_project(s.projects, name) {
        Some(_) => s.projects,
        None => s.projects.push(ProjectView { id: next_project_id, name, created_at: now }),
    }
}

/// The environment row an Up or Down will use.
pub open spec fn environment_for(
    s: StoreView,
    next_environment_id: u64,
    project_id: u64,
    name: Seq<char>,
    now: i64,
) -> EnvironmentView {
    match lookup_environment(s.environments, project_id, name) {
        Some(e) => e,
        None => EnvironmentView { id: next_environment_id, name, project_id, created_at: now },
    }
}

/// The environments table after an Up or Down.
pub open spec fn environments_after(
    s: StoreView,
    next_environment_id: u64,
    project_id: u64,
    name: Seq<char>,
    now: i64,
) -> Seq<EnvironmentView> {
    match lookup_environment(s.environments, project_id, name) {
        Some(_) => s.environments,
        None => s.environments.push(
            EnvironmentView { id: next_environment_id, name, project_id, created_at: now },
        ),
    }
}

/// The document an operation writes: the message's own for Up, the destroy
/// sentinel for Down.
pub open spec fn document_written(action: StateAction, state: Option<Seq<char>>) -> Option<
    Seq<char>,
> {
    match action {
        StateAction::Up => state,
        StateAction::Down => Some(destroy_sentinel()),
        StateAction::Preview => None,
    }
}

/// Dispatches one CLI state operation against the store.
///
/// `Up` writes the message's document as a new snapshot of the named
/// environment, creating the project and the environment by name first if
/// absent; an `Up` without a document is a malformed message and changes
/// nothing.  `Down` writes the destroy sentinel `"{}"` the same way.
/// `Preview` must not mutate the store, and does not.
pub fn apply_state_operation(store: &mut StateStore, msg: &StateOperationMessage, now: i64) -> (r:
    Result<(), ProtocolError>)
    requires
        old(store).wf(),
        old(store).next_project_id < u64::MAX,
        old(store).next_environment_id < u64::MAX,
        old(store).next_state_id < u64::MAX,
    ensures
        final(store).wf(),
        msg@.action == StateAction::Preview ==> r is Ok && *final(store) == *old(store),
        msg@.action == StateAction::Up && msg@.state is None ==> r == Result::<
            (),
            ProtocolError,
        >::Err(ProtocolError::MissingState) && *final(store) == *old(store),
        (match document_written(msg@.action, msg@.state) {
            Some(doc) => {
                let p = project_for(old(store)@, old(store).next_project_id, msg@.project, now);
                let e = environment_for(
                    old(store)@,
                    old(store).next_environment_id,
                    p.id,
                    msg@.environment,
                    now,
                );
                &&& r is Ok
                &&& final(store)@.projects == projects_after(
                    old(store)@,
                    old(store).next_project_id,
                    msg@.project,
                    now,
                )
                &&& final(store)@.environments == environments_after(
                    old(store)@,
                    old(store).next_environment_id,
                    p.id,
                    msg@.environment,
                    now,
                )
                &&& final(store)@.states == old(store)@.states.push(
                    StateRecordView {
                        id: old(store).next_state_id,
                        environment_id: e.id,
                        json: doc,
                        created_at: now,
                    },
                )
                &&& final(store)@.devices == old(store)@.devices
                &&& final(store)@.users == old(store)@.users
                &&& final(store)@.enrollments == old(store)@.enrollments
                &&& final(store).next_project_id == (match lookup_project(
                    old(store)@.projects,
                    msg@.project,
                ) {
                    Some(_) => old(store).next_project_id as int,
                    None => old(store).next_project_id + 1,
                })
                &&& final(store).next_environment_id == (match lookup_environment(
                    old(store)@.environments,
                    p.id,
                    msg@.environment,
                ) {
                    Some(_) => old(store).next_environment_id as int,
                    None => old(store).next_environment_id + 1,
                })
                &&& final(store).next_state_id == old(store).next_state_id + 1
                &&& final(store).next_device_id == old(store).next_device_id
                &&& final(store).next_user_id == old(store).next_user_id
            },
            None => true,
        }),
{
    match msg.action {
        StateAction::Preview => Ok(()),
        StateAction::Up => {
            let doc = match &msg.state {
                Some(doc) => doc.clone(),
                None => {
                    return Err(ProtocolError::MissingState);
                },
            };
            let project = store.upsert_project(&msg.project, now);
            let environment = store.upsert_environment(project.id, &msg.environment, now);
            store.append_state(environment.id, &doc, now);
            Ok(())
        },
        StateAction::Down => {
            let sentinel: String = "{}".to_owned();
            proof {
                reveal_strlit("{}");
                assert(sentinel@ =~= destroy_sentinel());
            }
            let project = store.upsert_project(&msg.project, now);
            let environment = store.upsert_environment(project.id, &msg.environment, now);
            store.append_state(environment.id, &sentinel, now);
            Ok(())
        },
    }
}

} // verus!
