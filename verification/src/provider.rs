//! The resource-provider registry, device side.
//!
//! A resource's kind is the second segment of its urn; the registry
//! dispatches on that string to the concrete apply logic.  No matching
//! provider is a fatal error, never a silent skip.  The one kind shipped
//! here is the OS-account resource `User` with fields `name`, `uid` and
//! `gid`; the shell commands it issues live outside the library, which only
//! decides what must run, in which order, on which parameters.

use vstd::prelude::*;

use crate::diff::{compute_delta, delta_create, delta_delete, delta_update, Resource, ResourceSet, ResourceView};
use crate::errors::ResourceError;
use crate::json::{obj_lookup, JsonValue, JsonView, json_get};
use crate::urn::{is_valid_urn, lemma_split_unique, lemma_urn_split, parse_urn, urn_split};
use crate::wire::EnvironmentUpdateOperation;

verus! {

/// What a provider is asked to do with one resource.
#[derive(PartialEq, Eq, Structural, Clone, Copy, Debug)]
pub enum Action {
    Create,
    Update,
    Delete,
}

impl View for Action {
    type V = Action;

    open spec fn view(&self) -> Action {
        *self
    }
}

impl DeepView for Action {
    type V = Action;

    open spec fn deep_view(&self) -> Action {
        *self
    }
}

/// The OS-account resource: the one provider kind the registry knows.
pub struct User {
    pub name: String,
    pub gid: u32,
    pub uid: u32,
}

pub struct UserView {
    pub name: Seq<char>,
    pub gid: u32,
    pub uid: u32,
}

impl View for User {
    type V = UserView;

    open spec fn view(&self) -> UserView {
        UserView { name: self.name@, gid: self.gid, uid: self.uid }
    }
}

/// The account a parameter object describes: a `name` text and `uid` and
/// `gid` integers that fit an OS account id.
pub open spec fn parsed_user(v: JsonView) -> Option<UserView> {
    match v {
        JsonView::Object(fields) => match (
            obj_lookup(fields, "name"@),
            obj_lookup(fields, "uid"@),
            obj_lookup(fields, "gid"@),
        ) {
            (Some(JsonView::Str(n)), Some(JsonView::Int(u)), Some(JsonView::Int(g))) => {
                if 0 <= u <= u32::MAX && 0 <= g <= u32::MAX {
                    Some(UserView { name: n, uid: u as u32, gid: g as u32 })
                } else {
                    None
                }
            },
            _ => None,
        },
        _ => None,
    }
}

/// Reads an OS-account provider's parameters out of a parameter object.
pub fn parse_user(parameters: &JsonValue) -> (r: Result<User, ResourceError>)
    ensures
        match r {
            Ok(u) => parsed_user(parameters@) == Some(u@),
            Err(e) => e == ResourceError::InvalidParameters && parsed_user(parameters@) is None,
        },
{
    let name_key: String = "name".to_owned();
    let uid_key: String = "uid".to_owned();
    let gid_key: String = "gid".to_owned();
    proof {
        reveal_strlit("name");
        reveal_strlit("uid");
        reveal_strlit("gid");
        assert(name_key@ =~= "name"@);
        assert(uid_key@ =~= "uid"@);
        assert(gid_key@ =~= "gid"@);
    }
    match parameters {
        JsonValue::Object(_) => {},
        _ => {
            return Err(ResourceError::InvalidParameters);
        },
    }
    let name = match json_get(parameters, &name_key) {
        Some(JsonValue::Str(n)) => n.clone(),
        _ => {
            return Err(ResourceError::InvalidParameters);
        },
    };
    let uid = match json_get(parameters, &uid_key) {
        Some(JsonValue::Int(u)) => {
            if *u < 0 || *u > u32::MAX as i64 {
                return Err(ResourceError::InvalidParameters);
            }
            *u as u32
        },
        _ => {
            return Err(ResourceError::InvalidParameters);
        },
    };
    let gid = match json_get(parameters, &gid_key) {
        Some(JsonValue::Int(g)) => {
            if *g < 0 || *g > u32::MAX as i64 {
                return Err(ResourceError::InvalidParameters);
            }
            *g as u32
        },
        _ => {
            return Err(ResourceError::InvalidParameters);
        },
    };
    Ok(User { name, gid, uid })
}

/// The kinds the registry can dispatch.
pub open spec fn known_kind(kind: Seq<char>) -> bool {
    kind == "User"@
}

/// Looks a resource's provider up by the kind segment of its urn.  An
/// invalid urn, an unknown kind and parameters that do not fit the
/// provider's schema are each a fatal error of their own.
pub fn get_provider(resource: &Resource) -> (r: Result<User, ResourceError>)
    ensures
        (r matches Err(ResourceError::InvalidUrn)) <==> !is_valid_urn(resource@.urn),
        is_valid_urn(resource@.urn) ==> {
            let kind = urn_split(resource@.urn).1;
            match r {
                Ok(u) => known_kind(kind) && parsed_user(resource@.parameters) == Some(u@),
                Err(ResourceError::UnknownKind) => !known_kind(kind),
                Err(ResourceError::InvalidParameters) => known_kind(kind) && parsed_user(
                    resource@.parameters,
                ) is None,
                _ => false,
            }
        },
{
    let urn = match parse_urn(resource.urn.as_str()) {
        Ok(u) => u,
        Err(_) => {
            return Err(ResourceError::InvalidUrn);
        },
    };
    proof {
        lemma_urn_split(resource@.urn);
        lemma_split_unique(
            resource@.urn,
            urn.namespace@,
            urn.kind@,
            urn.instance@,
            urn_split(resource@.urn).0,
            urn_split(resource@.urn).1,
            urn_split(resource@.urn).2,
        );
    }
    let user_kind: String = "User".to_owned();
    proof {
        reveal_strlit("User");
        assert(user_kind@ =~= "User"@);
    }
    if !urn.kind.eq(&user_kind) {
        return Err(ResourceError::UnknownKind);
    }
    match parse_user(&resource.parameters) {
        Ok(u) => Ok(u),
        Err(_) => Err(ResourceError::InvalidParameters),
    }
}

/// Tags every resource of a sequence with one action.
pub open spec fn tag_all(s: Seq<ResourceView>, a: Action) -> Seq<(Action, ResourceView)> {
    Seq::new(s.len(), |i: int| (a, s[i]))
}

/// The steps an environment update runs, in the order the contract fixes.
/// `Create` applies every target resource in document order.  `Update`
/// diffs local against target and applies all updates, then all deletes,
/// then all creates — later steps may depend on earlier ones freeing or
/// claiming identifiers.  `Destroy` deletes every locally held resource.
pub open spec fn plan_spec(
    operation: EnvironmentUpdateOperation,
    local: Seq<ResourceView>,
    target: Seq<ResourceView>,
) -> Seq<(Action, ResourceView)> {
    match operation {
        EnvironmentUpdateOperation::Create => tag_all(target, Action::Create),
        EnvironmentUpdateOperation::Update => tag_all(delta_update(local, target), Action::Update)
            + tag_all(delta_delete(local, target), Action::Delete) + tag_all(
            delta_create(local, target),
            Action::Create,
        ),
        EnvironmentUpdateOperation::Destroy => tag_all(local, Action::Delete),
    }
}

/// Lays out the apply steps for one environment update.  A dry run plans
/// nothing: it short-circuits before any provider would be called.
pub fn plan_environment_update(
    operation: &EnvironmentUpdateOperation,
    local: &ResourceSet,
    target: &ResourceSet,
    dry_run: bool,
) -> (plan: Vec<(Action, Resource)>)
    ensures
        dry_run ==> plan.deep_view() == Seq::<(Action, ResourceView)>::empty(),
        !dry_run ==> plan.deep_view() == plan_spec(*operation, local@, target@),
{
    let mut plan: Vec<(Action, Resource)> = Vec::new();
    if dry_run {
        proof {
            assert(plan.deep_view() =~= Seq::<(Action, ResourceView)>::empty());
        }
        return plan;
    }
    match operation {
        EnvironmentUpdateOperation::Create => {
            push_all(&mut plan, &target.resources, Action::Create);
            proof {
                assert(plan.deep_view() =~= plan_spec(*operation, local@, target@));
            }
        },
        EnvironmentUpdateOperation::Update => {
            let delta = compute_delta(local, target);
            push_all(&mut plan, &delta.resources_to_update, Action::Update);
            push_all(&mut plan, &delta.resources_to_delete, Action::Delete);
            push_all(&mut plan, &delta.resources_to_create, Action::Create);
            proof {
                assert(plan.deep_view() =~= plan_spec(*operation, local@, target@));
            }
        },
        EnvironmentUpdateOperation::Destroy => {
            push_all(&mut plan, &local.resources, Action::Delete);
            proof {
                assert(plan.deep_view() =~= plan_spec(*operation, local@, target@));
            }
        },
    }
    plan
}

/// Appends every resource, tagged with one action, to the plan.
fn push_all(plan: &mut Vec<(Action, Resource)>, resources: &Vec<Resource>, action: Action)
    ensures
        final(plan).deep_view() == old(plan).deep_view() + tag_all(
            resources.deep_view(),
            action,
        ),
{
    let n = resources.len();
    let mut i: usize = 0;
    while i < n
        invariant
            i <= n,
            n == resources@.len(),
            plan.deep_view() == old(plan).deep_view() + tag_all(
                resources.deep_view().take(i as int),
                action,
            ),
        decreases n - i,
    {
        let r = resources[i].clone();
        let ghost pre = plan.deep_view();
        proof {
            assert(r@ == resources.deep_view()[i as int]);
        }
        plan.push((action, r));
        proof {
            assert(plan.deep_view() =~= pre.push((action, r@)));
            assert(tag_all(resources.deep_view().take(i + 1), action) =~= tag_all(
                resources.deep_view().take(i as int),
                action,
            ).push((action, resources.deep_view()[i as int])));
            assert(plan.deep_view() =~= old(plan).deep_view() + tag_all(
                resources.deep_view().take(i + 1),
                action,
            ));
        }
        i += 1;
    }
    proof {
        assert(resources.deep_view().take(n as int) =~= resources.deep_view());
        assert(plan.deep_view() =~= old(plan).deep_view() + tag_all(resources.deep_view(), action));
    }
}

} // verus!
