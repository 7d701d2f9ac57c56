//! The state store.
//!
//! A durable, append-only log of desired-state snapshots per environment,
//! plus registries of projects, environments, devices, users and the
//! device-to-environment enrollment grants.  A [`StateRecord`] is immutable
//! once inserted; the current desired state of an environment is the record
//! with the highest id; writing `"{}"` is the sentinel for "environment
//! destroyed".  Projects and environments are created lazily by name on
//! first write; devices only ever by explicit registration.

use vstd::prelude::*;

use crate::errors::StoreError;

verus! {

/// A project: the unit that owns environments, keyed by a unique name.
pub struct Project {
    pub id: u64,
    pub name: String,
    pub created_at: i64,
}

pub struct ProjectView {
    pub id: u64,
    pub name: Seq<char>,
    pub created_at: i64,
}

impl View for Project {
    type V = ProjectView;

    open spec fn view(&self) -> ProjectView {
        ProjectView { id: self.id, name: self.name@, created_at: self.created_at }
    }
}

impl DeepView for Project {
    type V = ProjectView;

    open spec fn deep_view(&self) -> ProjectView {
        self.view()
    }
}

impl Clone for Project {
    fn clone(&self) -> (res: Self)
        ensures
            res@ == self@,
    {
        Project { id: self.id, name: self.name.clone(), created_at: self.created_at }
    }
}

/// An environment of a project, keyed by a name unique within the project.
pub struct Environment {
    pub id: u64,
    pub name: String,
    pub project_id: u64,
    pub created_at: i64,
}

pub struct EnvironmentView {
    pub id: u64,
    pub name: Seq<char>,
    pub project_id: u64,
    pub created_at: i64,
}

impl View for Environment {
    type V = EnvironmentView;

    open spec fn view(&self) -> EnvironmentView {
        EnvironmentView {
            id: self.id,
            name: self.name@,
            project_id: self.project_id,
            created_at: self.created_at,
        }
    }
}

impl DeepView for Environment {
    type V = EnvironmentView;

    open spec fn deep_view(&self) -> EnvironmentView {
        self.view()
    }
}

impl Clone for Environment {
    fn clone(&self) -> (res: Self)
        ensures
            res@ == self@,
    {
        Environment {
            id: self.id,
            name: self.name.clone(),
            project_id: self.project_id,
            created_at: self.created_at,
        }
    }
}

/// A managed machine, keyed by its stable unique `machine_id`.
pub struct Device {
    pub id: u64,
    pub machine_id: String,
    pub name: String,
    pub created_at: i64,
}

pub struct DeviceView {
    pub id: u64,
    pub machine_id: Seq<char>,
    pub name: Seq<char>,
    pub created_at: i64,
}

impl View for Device {
    type V = DeviceView;

    open spec fn view(&self) -> DeviceView {
        DeviceView {
            id: self.id,
            machine_id: self.machine_id@,
            name: self.name@,
            created_at: self.created_at,
        }
    }
}

impl DeepView for Device {
    type V = DeviceView;

    open spec fn deep_view(&self) -> DeviceView {
        self.view()
    }
}

impl Clone for Device {
    fn clone(&self) -> (res: Self)
        ensures
            res@ == self@,
    {
        Device {
            id: self.id,
            machine_id: self.machine_id.clone(),
            name: self.name.clone(),
            created_at: self.created_at,
        }
    }
}

/// An operator account.
pub struct User {
    pub id: u64,
    pub name: String,
    pub access_token: String,
    pub created_at: i64,
}

pub struct UserView {
    pub id: u64,
    pub name: Seq<char>,
    pub access_token: Seq<char>,
    pub created_at: i64,
}

impl View for User {
    type V = UserView;

    open spec fn view(&self) -> UserView {
        UserView {
            id: self.id,
            name: self.name@,
            access_token: self.access_token@,
            created_at: self.created_at,
        }
    }
}

impl DeepView for User {
    type V = UserView;

    open spec fn deep_view(&self) -> UserView {
        self.view()
    }
}

impl Clone for User {
    fn clone(&self) -> (res: Self)
        ensures
            res@ == self@,
    {
        User {
            id: self.id,
            name: self.name.clone(),
            access_token: self.access_token.clone(),
            created_at: self.created_at,
        }
    }
}

/// A device-to-environment grant: the device reconciles that environment.
#[derive(PartialEq, Eq, Structural, Clone, Copy, Debug)]
pub struct Enrollment {
    pub device_id: u64,
    pub environment_id: u64,
}

/// One immutable desired-state snapshot of an environment.
pub struct StateRecord {
    pub id: u64,
    pub environment_id: u64,
    pub json: String,
    pub created_at: i64,
}

pub struct StateRecordView {
    pub id: u64,
    pub environment_id: u64,
    pub json: Seq<char>,
    pub created_at: i64,
}

impl View for StateRecord {
    type V = StateRecordView;

    open spec fn view(&self) -> StateRecordView {
        StateRecordView {
            id: self.id,
            environment_id: self.environment_id,
            json: self.json@,
            created_at: self.created_at,
        }
    }
}

impl DeepView for StateRecord {
    type V = StateRecordView;

    open spec fn deep_view(&self) -> StateRecordView {
        self.view()
    }
}

impl Clone for StateRecord {
    fn clone(&self) -> (res: Self)
        ensures
            res@ == self@,
    {
        StateRecord {
            id: self.id,
            environment_id: self.environment_id,
            json: self.json.clone(),
            created_at: self.created_at,
        }
    }
}

/// The project named `name`, scanning back to front.
pub open spec fn lookup_project(s: Seq<ProjectView>, name: Seq<char>) -> Option<ProjectView>
    decreases s.len(),
{
    if s.len() == 0 {
        None
    } else if s.last().name == name {
        Some(s.last())
    } else {
        lookup_project(s.drop_last(), name)
    }
}

/// The environment of `project_id` named `name`, scanning back to front.
pub open spec fn lookup_environment(
    s: Seq<EnvironmentView>,
    project_id: u64,
    name: Seq<char>,
) -> Option<EnvironmentView>
    decreases s.len(),
{
    if s.len() == 0 {
        None
    } else if s.last().project_id == project_id && s.last().name == name {
        Some(s.last())
    } else {
        lookup_environment(s.drop_last(), project_id, name)
    }
}

/// The device with the given machine id, scanning back to front.
pub open spec fn lookup_device(s: Seq<DeviceView>, machine_id: Seq<char>) -> Option<DeviceView>
    decreases s.len(),
{
    if s.len() == 0 {
        None
    } else if s.last().machine_id == machine_id {
        Some(s.last())
    } else {
        lookup_device(s.drop_last(), machine_id)
    }
}

/// The newest snapshot of an environment: the last matching record, which
/// under the store invariant is the one with the highest id.
pub open spec fn latest_state_of(s: Seq<StateRecordView>, environment_id: u64) -> Option<
    StateRecordView,
>
    decreases s.len(),
{
    if s.len() == 0 {
        None
    } else if s.last().environment_id == environment_id {
        Some(s.last())
    } else {
        latest_state_of(s.drop_last(), environment_id)
    }
}

/// The snapshot with the given id.
pub open spec fn state_by_id_of(s: Seq<StateRecordView>, id: u64) -> Option<StateRecordView>
    decreases s.len(),
{
    if s.len() == 0 {
        None
    } else if s.last().id == id {
        Some(s.last())
    } else {
        state_by_id_of(s.drop_last(), id)
    }
}

/// The device holds a grant for the environment.
pub open spec fn is_enrolled(s: Seq<Enrollment>, device_id: u64, environment_id: u64) -> bool {
    exists|i: int|
        0 <= i < s.len() && (#[trigger] s[i]).device_id == device_id && s[i].environment_id
            == environment_id
}

/// Membership test of [`StateStore::enrolled_environments`]: the grant
/// exists for this environment.
pub open spec fn enrolled_pred(enrollments: Seq<Enrollment>, device_id: u64) -> spec_fn(
    EnvironmentView,
) -> bool {
    |e: EnvironmentView| is_enrolled(enrollments, device_id, e.id)
}

/// The mathematical view of the whole store.
pub struct StoreView {
    pub projects: Seq<ProjectView>,
    pub environments: Seq<EnvironmentView>,
    pub devices: Seq<DeviceView>,
    pub users: Seq<UserView>,
    pub enrollments: Seq<Enrollment>,
    pub states: Seq<StateRecordView>,
}

/// The registries and the append-only snapshot log.
pub struct StateStore {
    pub projects: Vec<Project>,
    pub environments: Vec<Environment>,
    pub devices: Vec<Device>,
    pub users: Vec<User>,
    pub enrollments: Vec<Enrollment>,
    pub states: Vec<StateRecord>,
    pub next_project_id: u64,
    pub next_environment_id: u64,
    pub next_device_id: u64,
    pub next_user_id: u64,
    pub next_state_id: u64,
}

impl View for StateStore {
    type V = StoreView;

    open spec fn view(&self) -> StoreView {
        StoreView {
            projects: self.projects.deep_view(),
            environments: self.environments.deep_view(),
            devices: self.devices.deep_view(),
            users: self.users.deep_view(),
            enrollments: self.enrollments@,
            states: self.states.deep_view(),
        }
    }
}

impl StateStore {
    /// The store invariant: unique keys per registry, ids below their
    /// counters, and snapshot ids strictly increasing in insertion order.
    pub open spec fn wf(&self) -> bool {
        &&& forall|i: int, j: int|
            0 <= i < j < self@.projects.len() ==> (#[trigger] self@.projects[i]).name != (
            #[trigger] self@.projects[j]).name
        &&& forall|i: int|
            0 <= i < self@.projects.len() ==> (#[trigger] self@.projects[i]).id
                < self.next_project_id
        &&& forall|i: int, j: int|
            0 <= i < j < self@.environments.len() ==> !((#[trigger] self@.environments[i]).name == (
            #[trigger] self@.environments[j]).name && self@.environments[i].project_id
                == self@.environments[j].project_id)
        &&& forall|i: int|
            0 <= i < self@.environments.len() ==> (#[trigger] self@.environments[i]).id
                < self.next_environment_id
        &&& forall|i: int, j: int|
            0 <= i < j < self@.devices.len() ==> (#[trigger] self@.devices[i]).machine_id != (
            #[trigger] self@.devices[j]).machine_id
        &&& forall|i: int|
            0 <= i < self@.devices.len() ==> (#[trigger] self@.devices[i]).id < self.next_device_id
        &&& forall|i: int|
            0 <= i < self@.users.len() ==> (#[trigger] self@.users[i]).id < self.next_user_id
        &&& forall|i: int, j: int|
            0 <= i < j < self@.states.len() ==> (#[trigger] self@.states[i]).id < (
            #[trigger] self@.states[j]).id
        &&& forall|i: int|
            0 <= i < self@.states.len() ==> (#[trigger] self@.states[i]).id < self.next_state_id
    }

    /// An empty store.
    pub fn new() -> (s: StateStore)
        ensures
            s.wf(),
            s@.projects.len() == 0,
            s@.environments.len() == 0,
            s@.devices.len() == 0,
            s@.users.len() == 0,
            s@.enrollments.len() == 0,
            s@.states.len() == 0,
            s.next_project_id == 1,
            s.next_environment_id == 1,
            s.next_device_id == 1,
            s.next_user_id == 1,
            s.next_state_id == 1,
    {
        StateStore {
            projects: Vec::new(),
            environments: Vec::new(),
            devices: Vec::new(),
            users: Vec::new(),
            enrollments: Vec::new(),
            states: Vec::new(),
            next_project_id: 1,
            next_environment_id: 1,
            next_device_id: 1,
            next_user_id: 1,
            next_state_id: 1,
        }
    }
}

proof fn lemma_lookup_project_none_iff(s: Seq<ProjectView>, name: Seq<char>)
    ensures
        (lookup_project(s, name) is None) <==> (forall|i: int|
            0 <= i < s.len() ==> (#[trigger] s[i]).name != name),
    decreases s.len(),
{
    if s.len() > 0 {
        let t = s.drop_last();
        lemma_lookup_project_none_iff(t, name);
        assert forall|i: int| 0 <= i < t.len() implies #[trigger] t[i] == s[i] by {}
        if s.last().name != name && lookup_project(t, name) is None {
            assert forall|i: int| 0 <= i < s.len() implies (#[trigger] s[i]).name != name by {
                if i < s.len() - 1 {
                    assert(t[i] == s[i]);
                }
            }
        }
    }
}

proof fn lemma_lookup_environment_none_iff(s: Seq<EnvironmentView>, project_id: u64, name: Seq<char>)
    ensures
        (lookup_environment(s, project_id, name) is None) <==> (forall|i: int|
            0 <= i < s.len() ==> !((#[trigger] s[i]).project_id == project_id && s[i].name
                == name)),
    decreases s.len(),
{
    if s.len() > 0 {
        let t = s.drop_last();
        lemma_lookup_environment_none_iff(t, project_id, name);
        assert forall|i: int| 0 <= i < t.len() implies #[trigger] t[i] == s[i] by {}
        if !(s.last().project_id == project_id && s.last().name == name) && lookup_environment(
            t,
            project_id,
            name,
        ) is None {
            assert forall|i: int| 0 <= i < s.len() implies !((#[trigger] s[i]).project_id
                == project_id && s[i].name == name) by {
                if i < s.len() - 1 {
                    assert(t[i] == s[i]);
                }
            }
        }
    }
}

proof fn lemma_lookup_device_none_iff(s: Seq<DeviceView>, machine_id: Seq<char>)
    ensures
        (lookup_device(s, machine_id) is None) <==> (forall|i: int|
            0 <= i < s.len() ==> (#[trigger] s[i]).machine_id != machine_id),
    decreases s.len(),
{
    if s.len() > 0 {
        let t = s.drop_last();
        lemma_lookup_device_none_iff(t, machine_id);
        assert forall|i: int| 0 <= i < t.len() implies #[trigger] t[i] == s[i] by {}
        if s.last().machine_id != machine_id && lookup_device(t, machine_id) is None {
            assert forall|i: int| 0 <= i < s.len() implies (#[trigger] s[i]).machine_id
                != machine_id by {
                if i < s.len() - 1 {
                    assert(t[i] == s[i]);
                }
            }
        }
    }
}

impl StateStore {
    /// Get-or-create a project by its unique name.
    pub fn upsert_project(&mut self, name: &String, now: i64) -> (p: Project)
        requires
            old(self).wf(),
            old(self).next_project_id < u64::MAX,
        ensures
            final(self).wf(),
            match lookup_project(old(self)@.projects, name@) {
                Some(pv) => p@ == pv && *final(self) == *old(self),
                None => {
                    &&& p@.name == name@
                    &&& p@.id == old(self).next_project_id
                    &&& p@.created_at == now
                    &&& final(self)@.projects == old(self)@.projects.push(p@)
                    &&& final(self)@.environments == old(self)@.environments
                    &&& final(self)@.devices == old(self)@.devices
                    &&& final(self)@.users == old(self)@.users
                    &&& final(self)@.enrollments == old(self)@.enrollments
                    &&& final(self)@.states == old(self)@.states
                    &&& final(self).next_project_id == old(self).next_project_id + 1
                    &&& final(self).next_environment_id == old(self).next_environment_id
                    &&& final(self).next_device_id == old(self).next_device_id
                    &&& final(self).next_user_id == old(self).next_user_id
                    &&& final(self).next_state_id == old(self).next_state_id
                },
            },
    {
        let n = self.projects.len();
        let mut i: usize = n;
        proof {
            assert(self@.projects.take(i as int) =~= self@.projects);
        }
        while i > 0
            invariant
                i <= self@.projects.len(),
                *self == *old(self),
                self.wf(),
                lookup_project(self@.projects, name@) == lookup_project(
                    self@.projects.take(i as int),
                    name@,
                ),
            decreases i,
        {
            i -= 1;
            let ghost prefix = self@.projects.take(i + 1);
            proof {
                assert(prefix.last() == self@.projects[i as int]);
                assert(prefix.drop_last() =~= self@.projects.take(i as int));
            }
            if self.projects[i].name.eq(name) {
                return self.projects[i].clone();
            }
        }
        proof {
            assert(self@.projects.take(0) =~= Seq::<ProjectView>::empty());
        }
        let p = Project { id: self.next_project_id, name: name.clone(), created_at: now };
        let out = p.clone();
        self.projects.push(p);
        self.next_project_id = self.next_project_id + 1;
        proof {
            assert(self@.projects =~= old(self)@.projects.push(out@));
            lemma_lookup_project_none_iff(old(self)@.projects, name@);
            assert(old(self).wf());
            assert(self@.environments == old(self)@.environments);
            assert(self@.devices == old(self)@.devices);
            assert(self@.users == old(self)@.users);
            assert(self@.states == old(self)@.states);
            assert(self@.enrollments == old(self)@.enrollments);
            assert forall|a: int, b: int| 0 <= a < b < self@.projects.len() implies (
            #[trigger] self@.projects[a]).name != (#[trigger] self@.projects[b]).name by {
                if b < old(self)@.projects.len() {
                } else {
                    assert(self@.projects[b] == out@);
                    assert(self@.projects[a] == old(self)@.projects[a]);
                }
            }
            assert forall|a: int| 0 <= a < self@.projects.len() implies (
            #[trigger] self@.projects[a]).id < self.next_project_id by {
                if a < old(self)@.projects.len() {
                    assert(self@.projects[a] == old(self)@.projects[a]);
                } else {
                    assert(self@.projects[a] == out@);
                }
            }
            assert(self.wf());
        }
        out
    }

    /// Get-or-create an environment by its name, unique within a project.
    pub fn upsert_environment(&mut self, project_id: u64, name: &String, now: i64) -> (e:
        Environment)
        requires
            old(self).wf(),
            old(self).next_environment_id < u64::MAX,
        ensures
            final(self).wf(),
            match lookup_environment(old(self)@.environments, project_id, name@) {
                Some(ev) => e@ == ev && *final(self) == *old(self),
                None => {
                    &&& e@.name == name@
                    &&& e@.project_id == project_id
                    &&& e@.id == old(self).next_environment_id
                    &&& e@.created_at == now
                    &&& final(self)@.environments == old(self)@.environments.push(e@)
                    &&& final(self)@.projects == old(self)@.projects
                    &&& final(self)@.devices == old(self)@.devices
                    &&& final(self)@.users == old(self)@.users
                    &&& final(self)@.enrollments == old(self)@.enrollments
                    &&& final(self)@.states == old(self)@.states
                    &&& final(self).next_environment_id == old(self).next_environment_id + 1
                    &&& final(self).next_project_id == old(self).next_project_id
                    &&& final(self).next_device_id == old(self).next_device_id
                    &&& final(self).next_user_id == old(self).next_user_id
                    &&& final(self).next_state_id == old(self).next_state_id
                },
            },
    {
        let n = self.environments.len();
        let mut i: usize = n;
        proof {
            assert(self@.environments.take(i as int) =~= self@.environments);
        }
        while i > 0
            invariant
                i <= self@.environments.len(),
                *self == *old(self),
                self.wf(),
                lookup_environment(self@.environments, project_id, name@) == lookup_environment(
                    self@.environments.take(i as int),
                    project_id,
                    name@,
                ),
            decreases i,
        {
            i -= 1;
            let ghost prefix = self@.environments.take(i + 1);
            proof {
                assert(prefix.last() == self@.environments[i as int]);
                assert(prefix.drop_last() =~= self@.environments.take(i as int));
            }
            if self.environments[i].project_id == project_id && self.environments[i].name.eq(
                name,
            ) {
                return self.environments[i].clone();
            }
        }
        proof {
            assert(self@.environments.take(0) =~= Seq::<EnvironmentView>::empty());
        }
        let e = Environment {
            id: self.next_environment_id,
            name: name.clone(),
            project_id,
            created_at: now,
        };
        let out = e.clone();
        self.environments.push(e);
        self.next_environment_id = self.next_environment_id + 1;
        proof {
            assert(self@.environments =~= old(self)@.environments.push(out@));
            lemma_lookup_environment_none_iff(old(self)@.environments, project_id, name@);
            assert(old(self).wf());
            assert(self@.projects == old(self)@.projects);
            assert(self@.devices == old(self)@.devices);
            assert(self@.users == old(self)@.users);
            assert(self@.states == old(self)@.states);
            assert(self@.enrollments == old(self)@.enrollments);
            assert forall|a: int, b: int| 0 <= a < b < self@.environments.len() implies !((
            #[trigger] self@.environments[a]).name == (#[trigger] self@.environments[b]).name
                && self@.environments[a].project_id == self@.environments[b].project_id) by {
                if b < old(self)@.environments.len() {
                } else {
                    assert(self@.environments[b] == out@);
                    assert(self@.environments[a] == old(self)@.environments[a]);
                }
            }
            assert forall|a: int| 0 <= a < self@.environments.len() implies (
            #[trigger] self@.environments[a]).id < self.next_environment_id by {
                if a < old(self)@.environments.len() {
                    assert(self@.environments[a] == old(self)@.environments[a]);
                } else {
                    assert(self@.environments[a] == out@);
                }
            }
            assert(self.wf());
        }
        out
    }

    /// Appends a new snapshot for an environment.  Never an update in
    /// place: even a document identical to the previous one gets a fresh
    /// record with a fresh, strictly larger id.
    pub fn append_state(&mut self, environment_id: u64, document: &String, now: i64) -> (rec:
        StateRecord)
        requires
            old(self).wf(),
            old(self).next_state_id < u64::MAX,
        ensures
            final(self).wf(),
            rec@.id == old(self).next_state_id,
            rec@.environment_id == environment_id,
            rec@.json == document@,
            rec@.created_at == now,
            final(self)@.states == old(self)@.states.push(rec@),
            final(self)@.projects == old(self)@.projects,
            final(self)@.environments == old(self)@.environments,
            final(self)@.devices == old(self)@.devices,
            final(self)@.users == old(self)@.users,
            final(self)@.enrollments == old(self)@.enrollments,
            final(self).next_state_id == old(self).next_state_id + 1,
            final(self).next_project_id == old(self).next_project_id,
            final(self).next_environment_id == old(self).next_environment_id,
            final(self).next_device_id == old(self).next_device_id,
            final(self).next_user_id == old(self).next_user_id,
    {
        let rec = StateRecord {
            id: self.next_state_id,
            environment_id,
            json: document.clone(),
            created_at: now,
        };
        let out = rec.clone();
        self.states.push(rec);
        self.next_state_id = self.next_state_id + 1;
        proof {
            assert(self@.states =~= old(self)@.states.push(out@));
            assert(old(self).wf());
            assert(self@.projects == old(self)@.projects);
            assert(self@.environments == old(self)@.environments);
            assert(self@.devices == old(self)@.devices);
            assert(self@.users == old(self)@.users);
            assert(self@.enrollments == old(self)@.enrollments);
            assert forall|a: int, b: int| 0 <= a < b < self@.states.len() implies (
            #[trigger] self@.states[a]).id < (#[trigger] self@.states[b]).id by {
                assert(self@.states[a] == old(self)@.states[a]);
                if b < old(self)@.states.len() {
                } else {
                    assert(self@.states[b] == out@);
                }
            }
            assert forall|a: int| 0 <= a < self@.states.len() implies (
            #[trigger] self@.states[a]).id < self.next_state_id by {
                if a < old(self)@.states.len() {
                    assert(self@.states[a] == old(self)@.states[a]);
                } else {
                    assert(self@.states[a] == out@);
                }
            }
            assert(self.wf());
        }
        out
    }

    /// The newest snapshot of an environment, or nothing if the
    /// environment has no history.
    pub fn latest_state(&self, environment_id: u64) -> (r: Option<StateRecord>)
        ensures
            match r {
                Some(rec) => latest_state_of(self@.states, environment_id) == Some(rec@),
                None => latest_state_of(self@.states, environment_id) is None,
            },
    {
        let mut i: usize = self.states.len();
        proof {
            assert(self@.states.take(i as int) =~= self@.states);
        }
        while i > 0
            invariant
                i <= self@.states.len(),
                latest_state_of(self@.states, environment_id) == latest_state_of(
                    self@.states.take(i as int),
                    environment_id,
                ),
            decreases i,
        {
            i -= 1;
            let ghost prefix = self@.states.take(i + 1);
            proof {
                assert(prefix.last() == self@.states[i as int]);
                assert(prefix.drop_last() =~= self@.states.take(i as int));
            }
            if self.states[i].environment_id == environment_id {
                return Some(self.states[i].clone());
            }
        }
        proof {
            assert(self@.states.take(0) =~= Seq::<StateRecordView>::empty());
        }
        None
    }

    /// The snapshot with the given id.
    pub fn state_by_id(&self, id: u64) -> (r: Option<StateRecord>)
        ensures
            match r {
                Some(rec) => state_by_id_of(self@.states, id) == Some(rec@),
                None => state_by_id_of(self@.states, id) is None,
            },
    {
        let mut i: usize = self.states.len();
        proof {
            assert(self@.states.take(i as int) =~= self@.states);
        }
        while i > 0
            invariant
                i <= self@.states.len(),
                state_by_id_of(self@.states, id) == state_by_id_of(
                    self@.states.take(i as int),
                    id,
                ),
            decreases i,
        {
            i -= 1;
            let ghost prefix = self@.states.take(i + 1);
            proof {
                assert(prefix.last() == self@.states[i as int]);
                assert(prefix.drop_last() =~= self@.states.take(i as int));
            }
            if self.states[i].id == id {
                return Some(self.states[i].clone());
            }
        }
        proof {
            assert(self@.states.take(0) =~= Seq::<StateRecordView>::empty());
        }
        None
    }

    /// The registered device with this machine id.
    pub fn device_by_machine_id(&self, machine_id: &String) -> (r: Option<Device>)
        ensures
            match r {
                Some(d) => lookup_device(self@.devices, machine_id@) == Some(d@),
                None => lookup_device(self@.devices, machine_id@) is None,
            },
    {
        let mut i: usize = self.devices.len();
        proof {
            assert(self@.devices.take(i as int) =~= self@.devices);
        }
        while i > 0
            invariant
                i <= self@.devices.len(),
                lookup_device(self@.devices, machine_id@) == lookup_device(
                    self@.devices.take(i as int),
                    machine_id@,
                ),
            decreases i,
        {
            i -= 1;
            let ghost prefix = self@.devices.take(i + 1);
            proof {
                assert(prefix.last() == self@.devices[i as int]);
                assert(prefix.drop_last() =~= self@.devices.take(i as int));
            }
            if self.devices[i].machine_id.eq(machine_id) {
                return Some(self.devices[i].clone());
            }
        }
        proof {
            assert(self@.devices.take(0) =~= Seq::<DeviceView>::empty());
        }
        None
    }
}

/// What [`StateStore::enroll`] will insert, if its three lookups succeed.
pub open spec fn enroll_target(
    s: StoreView,
    machine_id: Seq<char>,
    project_name: Seq<char>,
    environment_name: Seq<char>,
) -> Option<Enrollment> {
    match lookup_project(s.projects, project_name) {
        None => None,
        Some(p) => match lookup_environment(s.environments, p.id, environment_name) {
            None => None,
            Some(e) => match lookup_device(s.devices, machine_id) {
                None => None,
                Some(d) => Some(Enrollment { device_id: d.id, environment_id: e.id }),
            },
        },
    }
}

impl StateStore {
    /// The project with this unique name.
    pub fn project_by_name(&self, name: &String) -> (r: Option<Project>)
        ensures
            match r {
                Some(p) => lookup_project(self@.projects, name@) == Some(p@),
                None => lookup_project(self@.projects, name@) is None,
            },
    {
        let mut i: usize = self.projects.len();
        proof {
            assert(self@.projects.take(i as int) =~= self@.projects);
        }
        while i > 0
            invariant
                i <= self@.projects.len(),
                lookup_project(self@.projects, name@) == lookup_project(
                    self@.projects.take(i as int),
                    name@,
                ),
            decreases i,
        {
            i -= 1;
            let ghost prefix = self@.projects.take(i + 1);
            proof {
                assert(prefix.last() == self@.projects[i as int]);
                assert(prefix.drop_last() =~= self@.projects.take(i as int));
            }
            if self.projects[i].name.eq(name) {
                return Some(self.projects[i].clone());
            }
        }
        proof {
            assert(self@.projects.take(0) =~= Seq::<ProjectView>::empty());
        }
        None
    }

    /// The environment of this project with this name.
    pub fn environment_by_name(&self, project_id: u64, name: &String) -> (r: Option<Environment>)
        ensures
            match r {
                Some(e) => lookup_environment(self@.environments, project_id, name@) == Some(e@),
                None => lookup_environment(self@.environments, project_id, name@) is None,
            },
    {
        let mut i: usize = self.environments.len();
        proof {
            assert(self@.environments.take(i as int) =~= self@.environments);
        }
        while i > 0
            invariant
                i <= self@.environments.len(),
                lookup_environment(self@.environments, project_id, name@) == lookup_environment(
                    self@.environments.take(i as int),
                    project_id,
                    name@,
                ),
            decreases i,
        {
            i -= 1;
            let ghost prefix = self@.environments.take(i + 1);
            proof {
                assert(prefix.last() == self@.environments[i as int]);
                assert(prefix.drop_last() =~= self@.environments.take(i as int));
            }
            if self.environments[i].project_id == project_id && self.environments[i].name.eq(
                name,
            ) {
                return Some(self.environments[i].clone());
            }
        }
        proof {
            assert(self@.environments.take(0) =~= Seq::<EnvironmentView>::empty());
        }
        None
    }

    /// The device holds a grant for the environment.
    pub fn device_is_enrolled(&self, device_id: u64, environment_id: u64) -> (r: bool)
        ensures
            r == is_enrolled(self@.enrollments, device_id, environment_id),
    {
        let n = self.enrollments.len();
        let mut i: usize = 0;
        while i < n
            invariant
                i <= n,
                n == self@.enrollments.len(),
                forall|j: int| 0 <= j < i ==> !((#[trigger] self@.enrollments[j]).device_id
                    == device_id && self@.enrollments[j].environment_id == environment_id),
            decreases n - i,
        {
            if self.enrollments[i].device_id == device_id && self.enrollments[i].environment_id
                == environment_id {
                return true;
            }
            i += 1;
        }
        false
    }

    /// The environments the device is enrolled in: the only ones it ever
    /// reconciles.
    pub fn enrolled_environments(&self, device_id: u64) -> (r: Vec<Environment>)
        ensures
            r.deep_view() == self@.environments.filter(
                enrolled_pred(self@.enrollments, device_id),
            ),
    {
        let mut out: Vec<Environment> = Vec::new();
        let n = self.environments.len();
        let mut i: usize = 0;
        while i < n
            invariant
                i <= n,
                n == self@.environments.len(),
                out.deep_view() == self@.environments.take(i as int).filter(
                    enrolled_pred(self@.enrollments, device_id),
                ),
            decreases n - i,
        {
            proof {
                assert(self@.environments.take(i + 1) =~= self@.environments.take(i as int).push(
                    self@.environments[i as int],
                ));
                crate::diff::lemma_filter_push(
                    self@.environments.take(i as int),
                    enrolled_pred(self@.enrollments, device_id),
                    self@.environments[i as int],
                );
            }
            if self.device_is_enrolled(device_id, self.environments[i].id) {
                let e = self.environments[i].clone();
                out.push(e);
                proof {
                    assert(out.deep_view() =~= self@.environments.take(i + 1).filter(
                        enrolled_pred(self@.enrollments, device_id),
                    ));
                }
            } else {
                proof {
                    assert(out.deep_view() =~= self@.environments.take(i + 1).filter(
                        enrolled_pred(self@.enrollments, device_id),
                    ));
                }
            }
            i += 1;
        }
        proof {
            assert(self@.environments.take(n as int) =~= self@.environments);
        }
        out
    }

    /// Grants a device the right to reconcile an environment, looking all
    /// three up by their public keys.  Any missing row is `NotFound` and
    /// the store is unchanged.
    pub fn enroll(&mut self, machine_id: &String, project_name: &String, environment_name: &String)
        -> (r: Result<(), StoreError>)
        requires
            old(self).wf(),
        ensures
            final(self).wf(),
            match enroll_target(old(self)@, machine_id@, project_name@, environment_name@) {
                Some(en) => {
                    &&& r is Ok
                    &&& final(self)@.enrollments == old(self)@.enrollments.push(en)
                    &&& final(self)@.projects == old(self)@.projects
                    &&& final(self)@.environments == old(self)@.environments
                    &&& final(self)@.devices == old(self)@.devices
                    &&& final(self)@.users == old(self)@.users
                    &&& final(self)@.states == old(self)@.states
                    &&& final(self).next_project_id == old(self).next_project_id
                    &&& final(self).next_environment_id == old(self).next_environment_id
                    &&& final(self).next_device_id == old(self).next_device_id
                    &&& final(self).next_user_id == old(self).next_user_id
                    &&& final(self).next_state_id == old(self).next_state_id
                },
                None => (r matches Err(StoreError::NotFound)) && *final(self) == *old(self),
            },
    {
        let project = match self.project_by_name(project_name) {
            Some(p) => p,
            None => {
                return Err(StoreError::NotFound);
            },
        };
        let environment = match self.environment_by_name(project.id, environment_name) {
            Some(e) => e,
            None => {
                return Err(StoreError::NotFound);
            },
        };
        let device = match self.device_by_machine_id(machine_id) {
            Some(d) => d,
            None => {
                return Err(StoreError::NotFound);
            },
        };
        self.enrollments.push(
            Enrollment { device_id: device.id, environment_id: environment.id },
        );
        proof {
            assert(old(self).wf());
            assert(self@.projects == old(self)@.projects);
            assert(self@.environments == old(self)@.environments);
            assert(self@.devices == old(self)@.devices);
            assert(self@.users == old(self)@.users);
            assert(self@.states == old(self)@.states);
            assert(self.wf());
        }
        Ok(())
    }

    /// Registers a device under its stable machine id; a second
    /// registration of the same machine id is refused.
    pub fn device_create(&mut self, device_name: &String, machine_id: &String, now: i64) -> (r:
        Result<Device, StoreError>)
        requires
            old(self).wf(),
            old(self).next_device_id < u64::MAX,
        ensures
            final(self).wf(),
            match lookup_device(old(self)@.devices, machine_id@) {
                Some(_) => (r matches Err(StoreError::Duplicate)) && *final(self) == *old(self),
                None => match r {
                    Ok(d) => {
                        &&& d@.machine_id == machine_id@
                        &&& d@.name == device_name@
                        &&& d@.id == old(self).next_device_id
                        &&& d@.created_at == now
                        &&& final(self)@.devices == old(self)@.devices.push(d@)
                        &&& final(self)@.projects == old(self)@.projects
                        &&& final(self)@.environments == old(self)@.environments
                        &&& final(self)@.users == old(self)@.users
                        &&& final(self)@.enrollments == old(self)@.enrollments
                        &&& final(self)@.states == old(self)@.states
                        &&& final(self).next_device_id == old(self).next_device_id + 1
                        &&& final(self).next_project_id == old(self).next_project_id
                        &&& final(self).next_environment_id == old(self).next_environment_id
                        &&& final(self).next_user_id == old(self).next_user_id
                        &&& final(self).next_state_id == old(self).next_state_id
                    },
                    Err(_) => false,
                },
            },
    {
        match self.device_by_machine_id(machine_id) {
            Some(_) => Err(StoreError::Duplicate),
            None => {
                let d = Device {
                    id: self.next_device_id,
                    machine_id: machine_id.clone(),
                    name: device_name.clone(),
                    created_at: now,
                };
                let out = d.clone();
                self.devices.push(d);
                self.next_device_id = self.next_device_id + 1;
                proof {
                    assert(self@.devices =~= old(self)@.devices.push(out@));
                    lemma_lookup_device_none_iff(old(self)@.devices, machine_id@);
                    assert(old(self).wf());
                    assert(self@.projects == old(self)@.projects);
                    assert(self@.environments == old(self)@.environments);
                    assert(self@.users == old(self)@.users);
                    assert(self@.states == old(self)@.states);
                    assert(self@.enrollments == old(self)@.enrollments);
                    assert forall|a: int, b: int| 0 <= a < b < self@.devices.len() implies (
                    #[trigger] self@.devices[a]).machine_id != (
                    #[trigger] self@.devices[b]).machine_id by {
                        if b < old(self)@.devices.len() {
                        } else {
                            assert(self@.devices[b] == out@);
                            assert(self@.devices[a] == old(self)@.devices[a]);
                        }
                    }
                    assert forall|a: int| 0 <= a < self@.devices.len() implies (
                    #[trigger] self@.devices[a]).id < self.next_device_id by {
                        if a < old(self)@.devices.len() {
                            assert(self@.devices[a] == old(self)@.devices[a]);
                        } else {
                            assert(self@.devices[a] == out@);
                        }
                    }
                    assert(self.wf());
                }
                Ok(out)
            },
        }
    }

    /// Removes the device with this machine id (its enrollment grants stay
    /// behind, pointing at nothing, as row deletion leaves them).  Returns
    /// how many devices were removed: one or none, as machine ids are
    /// unique.
    pub fn device_delete(&mut self, machine_id: &String) -> (n: usize)
        requires
            old(self).wf(),
        ensures
            final(self).wf(),
            match lookup_device(old(self)@.devices, machine_id@) {
                None => n == 0 && *final(self) == *old(self),
                Some(_) => {
                    &&& n == 1
                    &&& exists|idx: int|
                        #![auto]
                        0 <= idx < old(self)@.devices.len() && old(
                            self,
                        )@.devices[idx].machine_id == machine_id@ && final(self)@.devices == old(
                            self,
                        )@.devices.remove(idx)
                    &&& final(self)@.projects == old(self)@.projects
                    &&& final(self)@.environments == old(self)@.environments
                    &&& final(self)@.users == old(self)@.users
                    &&& final(self)@.enrollments == old(self)@.enrollments
                    &&& final(self)@.states == old(self)@.states
                    &&& final(self).next_project_id == old(self).next_project_id
                    &&& final(self).next_environment_id == old(self).next_environment_id
                    &&& final(self).next_device_id == old(self).next_device_id
                    &&& final(self).next_user_id == old(self).next_user_id
                    &&& final(self).next_state_id == old(self).next_state_id
                },
            },
    {
        let mut i: usize = self.devices.len();
        proof {
            assert(self@.devices.take(i as int) =~= self@.devices);
        }
        while i > 0
            invariant
                i <= self@.devices.len(),
                *self == *old(self),
                self.wf(),
                lookup_device(self@.devices, machine_id@) == lookup_device(
                    self@.devices.take(i as int),
                    machine_id@,
                ),
            decreases i,
        {
            i -= 1;
            let ghost prefix = self@.devices.take(i + 1);
            proof {
                assert(prefix.last() == self@.devices[i as int]);
                assert(prefix.drop_last() =~= self@.devices.take(i as int));
            }
            if self.devices[i].machine_id.eq(machine_id) {
                let ghost odv = self@.devices;
                self.devices.remove(i);
                proof {
                    assert(self@.devices =~= odv.remove(i as int));
                    assert(old(self)@.devices == odv);
                    assert forall|a: int, b: int| 0 <= a < b < self@.devices.len() implies (
                    #[trigger] self@.devices[a]).machine_id != (
                    #[trigger] self@.devices[b]).machine_id by {
                        let a0: int = if a < i { a } else { a + 1 };
                        let b0: int = if b < i { b } else { b + 1 };
                        assert(self@.devices[a] == odv[a0]);
                        assert(self@.devices[b] == odv[b0]);
                    }
                    assert forall|a: int| 0 <= a < self@.devices.len() implies (
                    #[trigger] self@.devices[a]).id < self.next_device_id by {
                        let a0: int = if a < i { a } else { a + 1 };
                        assert(self@.devices[a] == odv[a0]);
                    }
                    assert(self@.projects == old(self)@.projects);
                    assert(self@.environments == old(self)@.environments);
                    assert(self@.users == old(self)@.users);
                    assert(self@.states == old(self)@.states);
                    assert(self@.enrollments == old(self)@.enrollments);
                    assert(self.wf());
                }
                return 1;
            }
        }
        proof {
            assert(self@.devices.take(0) =~= Seq::<DeviceView>::empty());
        }
        0
    }

    /// Adds an operator account.
    pub fn user_create(&mut self, user_name: &String, access_token: &String, now: i64) -> (u: User)
        requires
            old(self).wf(),
            old(self).next_user_id < u64::MAX,
        ensures
            final(self).wf(),
            u@.name == user_name@,
            u@.access_token == access_token@,
            u@.id == old(self).next_user_id,
            u@.created_at == now,
            final(self)@.users == old(self)@.users.push(u@),
            final(self)@.projects == old(self)@.projects,
            final(self)@.environments == old(self)@.environments,
            final(self)@.devices == old(self)@.devices,
            final(self)@.enrollments == old(self)@.enrollments,
            final(self)@.states == old(self)@.states,
            final(self).next_user_id == old(self).next_user_id + 1,
            final(self).next_project_id == old(self).next_project_id,
            final(self).next_environment_id == old(self).next_environment_id,
            final(self).next_device_id == old(self).next_device_id,
            final(self).next_state_id == old(self).next_state_id,
    {
        let u = User {
            id: self.next_user_id,
            name: user_name.clone(),
            access_token: access_token.clone(),
            created_at: now,
        };
        let out = u.clone();
        self.users.push(u);
        self.next_user_id = self.next_user_id + 1;
        proof {
            assert(self@.users =~= old(self)@.users.push(out@));
            assert(old(self).wf());
            assert(self@.projects == old(self)@.projects);
            assert(self@.environments == old(self)@.environments);
            assert(self@.devices == old(self)@.devices);
            assert(self@.states == old(self)@.states);
            assert(self@.enrollments == old(self)@.enrollments);
            assert forall|a: int| 0 <= a < self@.users.len() implies (
            #[trigger] self@.users[a]).id < self.next_user_id by {
                if a < old(self)@.users.len() {
                    assert(self@.users[a] == old(self)@.users[a]);
                } else {
                    assert(self@.users[a] == out@);
                }
            }
            assert(self.wf());
        }
        out
    }
}

/// Law: the snapshot log is append-only.  Appending a record with a fresh,
/// strictly larger id makes it the latest for its environment, leaves every
/// other environment's latest unchanged, and every earlier record is still
/// read back unchanged by its id.
pub proof fn lemma_append_only(states: Seq<StateRecordView>, rec: StateRecordView)
    requires
        forall|i: int| 0 <= i < states.len() ==> (#[trigger] states[i]).id < rec.id,
    ensures
        latest_state_of(states.push(rec), rec.environment_id) == Some(rec),
        forall|e: u64|
            e != rec.environment_id ==> latest_state_of(states.push(rec), e) == latest_state_of(
                states,
                e,
            ),
        state_by_id_of(states.push(rec), rec.id) == Some(rec),
        forall|id: u64|
            id != rec.id ==> state_by_id_of(states.push(rec), id) == state_by_id_of(states, id),
{
    let s2 = states.push(rec);
    assert(s2.last() == rec);
    assert(s2.drop_last() =~= states);
    assert forall|e: u64| e != rec.environment_id implies latest_state_of(s2, e)
        == latest_state_of(states, e) by {
        assert(s2.drop_last() == states);
    }
    assert forall|id: u64| id != rec.id implies state_by_id_of(s2, id) == state_by_id_of(
        states,
        id,
    ) by {
        assert(s2.drop_last() == states);
    }
}

} // verus!
