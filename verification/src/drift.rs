//! Drift detection.
//!
//! The coordinator does not diff documents against a device: it compares a
//! 16-byte content hash of the environment's latest stored document with
//! the hash the device last reported for that environment, byte for byte.
//! Two byte-different but semantically equal documents therefore count as
//! drifted.  [`classify_drift`] turns one comparison into the operation the
//! device must run; [`device_status_cycle`] does it for every environment a
//! device is enrolled in and builds the update map the coordinator pushes.

use vstd::prelude::*;

use crate::errors::StoreError;
use crate::store::{
    latest_state_of, lookup_device, enrolled_pred, EnvironmentView, StateStore, StoreView,
};
use crate::wire::{
    hash_eq, EnvironmentUpdate, EnvironmentUpdateOperation, EnvironmentUpdateView, StateHash,
};

verus! {

/// The 16-byte digest that both sides compute over a document's text.  It
/// depends on the characters alone.
pub uninterp spec fn md5_of(s: Seq<char>) -> Seq<u8>;

/// Relies on the `Md5` hasher of the `md-5` crate: the digest is 16 bytes
/// and a pure function of the hashed bytes, hence of the characters.
#[verifier::external_body]
fn md5_digest(s: &str) -> (r: StateHash)
    ensures
        r@ == md5_of(s@),
        r@.len() == 16,
{
    let out = <md5::Md5 as md5::Digest>::digest(s.as_bytes());
    out.into()
}

/// The 16-byte content hash of a desired-state document.
pub fn document_hash(document: &str) -> (r: StateHash)
    ensures
        r@ == md5_of(document@),
        r@.len() == 16,
{
    md5_digest(document)
}

/// The document text that destroys an environment.
pub open spec fn destroy_sentinel() -> Seq<char> {
    "{}"@
}

/// How one environment has drifted, given the latest stored document (if
/// any) and the hash the device reported for it (if any):
/// no stored document, or the destroy sentinel, asks for `Destroy`; a
/// document the device has never hashed asks for `Create`; a hash mismatch
/// asks for `Update`; a matching hash asks for nothing.
pub open spec fn classify_spec(latest: Option<Seq<char>>, reported: Option<Seq<u8>>) -> Option<
    EnvironmentUpdateView,
> {
    match latest {
        None => Some(
            EnvironmentUpdateView {
                state: None,
                operation: EnvironmentUpdateOperation::Destroy,
            },
        ),
        Some(doc) => if doc == destroy_sentinel() {
            Some(
                EnvironmentUpdateView {
                    state: None,
                    operation: EnvironmentUpdateOperation::Destroy,
                },
            )
        } else {
            match reported {
                None => Some(
                    EnvironmentUpdateView {
                        state: Some(doc),
                        operation: EnvironmentUpdateOperation::Create,
                    },
                ),
                Some(h) => if h == md5_of(doc) {
                    None
                } else {
                    Some(
                        EnvironmentUpdateView {
                            state: Some(doc),
                            operation: EnvironmentUpdateOperation::Update,
                        },
                    )
                },
            }
        },
    }
}

/// Classifies one environment's drift.  Consumes the latest stored
/// document, handing it on as the update payload where one is owed.
pub fn classify_drift(latest: Option<String>, reported: &Option<StateHash>) -> (r: Option<
    EnvironmentUpdate,
>)
    ensures
        match r {
            Some(u) => classify_spec(latest.deep_view(), reported.deep_view()) == Some(u@),
            None => classify_spec(latest.deep_view(), reported.deep_view()) is None,
        },
{
    let doc = match latest {
        None => {
            return Some(
                EnvironmentUpdate { state: None, operation: EnvironmentUpdateOperation::Destroy },
            );
        },
        Some(doc) => doc,
    };
    let sentinel: String = "{}".to_owned();
    proof {
        reveal_strlit("{}");
        assert(sentinel@ =~= destroy_sentinel());
    }
    if doc.eq(&sentinel) {
        return Some(
            EnvironmentUpdate { state: None, operation: EnvironmentUpdateOperation::Destroy },
        );
    }
    match reported {
        None => {
            proof {
                assert(latest == Some(doc));
                assert(latest.deep_view() == Some(doc@));
                assert(doc@ != destroy_sentinel());
                assert(reported.deep_view() is None);
                assert(classify_spec(latest.deep_view(), reported.deep_view()) == Some(
                    EnvironmentUpdateView {
                        state: Some(doc@),
                        operation: EnvironmentUpdateOperation::Create,
                    },
                ));
            }
            Some(
                EnvironmentUpdate {
                    state: Some(doc),
                    operation: EnvironmentUpdateOperation::Create,
                },
            )
        },
        Some(h) => {
            let current = document_hash(doc.as_str());
            if hash_eq(h, &current) {
                proof {
                    assert(latest.deep_view() == Some(doc@));
                    assert(reported.deep_view() == Some(h@));
                    assert(h@ == md5_of(doc@));
                    assert(classify_spec(latest.deep_view(), reported.deep_view()) is None);
                }
                None
            } else {
                proof {
                    assert(latest.deep_view() == Some(doc@));
                    assert(reported.deep_view() == Some(h@));
                    assert(classify_spec(latest.deep_view(), reported.deep_view()) == Some(
                        EnvironmentUpdateView {
                            state: Some(doc@),
                            operation: EnvironmentUpdateOperation::Update,
                        },
                    ));
                }
                Some(
                    EnvironmentUpdate {
                        state: Some(doc),
                        operation: EnvironmentUpdateOperation::Update,
                    },
                )
            }
        },
    }
}

/// The hash a device reported for this environment name, the last report
/// winning if a name repeats.
pub open spec fn hash_for(report: Seq<(Seq<char>, Seq<u8>)>, name: Seq<char>) -> Option<Seq<u8>>
    decreases report.len(),
{
    if report.len() == 0 {
        None
    } else if report.last().0 == name {
        Some(report.last().1)
    } else {
        hash_for(report.drop_last(), name)
    }
}

/// The latest stored document of an environment, as text.
pub open spec fn latest_doc(store: StoreView, environment_id: u64) -> Option<Seq<char>> {
    match latest_state_of(store.states, environment_id) {
        Some(rec) => Some(rec.json),
        None => None,
    }
}

/// The update map owed for `envs`, in order: one entry per environment
/// whose drift classification asks for an operation.
pub open spec fn updates_for(
    store: StoreView,
    report: Seq<(Seq<char>, Seq<u8>)>,
    envs: Seq<EnvironmentView>,
) -> Seq<(Seq<char>, EnvironmentUpdateView)>
    decreases envs.len(),
{
    if envs.len() == 0 {
        Seq::empty()
    } else {
        let rest = updates_for(store, report, envs.drop_last());
        let e = envs.last();
        match classify_spec(latest_doc(store, e.id), hash_for(report, e.name)) {
            Some(u) => rest.push((e.name, u)),
            None => rest,
        }
    }
}

/// The hash the report carries for this environment name.
fn find_hash(report: &Vec<(String, StateHash)>, name: &String) -> (r: Option<StateHash>)
    ensures
        match r {
            Some(h) => hash_for(report.deep_view(), name@) == Some(h@),
            None => hash_for(report.deep_view(), name@) is None,
        },
{
    let mut i: usize = report.len();
    proof {
        assert(report.deep_view().take(i as int) =~= report.deep_view());
    }
    while i > 0
        invariant
            i <= report@.len(),
            report.deep_view().len() == report@.len(),
            hash_for(report.deep_view(), name@) == hash_for(
                report.deep_view().take(i as int),
                name@,
            ),
        decreases i,
    {
        i -= 1;
        let ghost prefix = report.deep_view().take(i + 1);
        proof {
            assert(prefix.last() == report.deep_view()[i as int]);
            assert(prefix.drop_last() =~= report.deep_view().take(i as int));
        }
        if report[i].0.eq(name) {
            return Some(report[i].1);
        }
    }
    proof {
        assert(report.deep_view().take(0) =~= Seq::<(Seq<char>, Seq<u8>)>::empty());
    }
    None
}

/// One coordinator-side reconciliation pass for a device: walk the
/// environments it is enrolled in, classify each one's drift against the
/// hashes the device reported, and collect the update map to push.  An
/// unknown machine id is `NotFound`.
pub fn device_status_cycle(
    store: &StateStore,
    machine_id: &String,
    report: &Vec<(String, StateHash)>,
) -> (r: Result<Vec<(String, EnvironmentUpdate)>, StoreError>)
    ensures
        match r {
            Ok(updates) => match lookup_device(store@.devices, machine_id@) {
                Some(d) => updates.deep_view() == updates_for(
                    store@,
                    report.deep_view(),
                    store@.environments.filter(enrolled_pred(store@.enrollments, d.id)),
                ),
                None => false,
            },
            Err(e) => e == StoreError::NotFound && lookup_device(store@.devices, machine_id@)
                is None,
        },
{
    let device = match store.device_by_machine_id(machine_id) {
        Some(d) => d,
        None => {
            return Err(StoreError::NotFound);
        },
    };
    let envs = store.enrolled_environments(device.id);
    let ghost genvs = store@.environments.filter(
        enrolled_pred(store@.enrollments, device@.id),
    );
    let mut out: Vec<(String, EnvironmentUpdate)> = Vec::new();
    let n = envs.len();
    let mut i: usize = 0;
    while i < n
        invariant
            i <= n,
            n == envs@.len(),
            genvs == envs.deep_view(),
            genvs.len() == envs@.len(),
            forall|j: int| 0 <= j < envs@.len() ==> #[trigger] genvs[j] == envs@[j]@,
            out.deep_view() == updates_for(store@, report.deep_view(), genvs.take(i as int)),
            lookup_device(store@.devices, machine_id@) == Some(device@),
            genvs == store@.environments.filter(enrolled_pred(store@.enrollments, device@.id)),
        decreases n - i,
    {
        let env = &envs[i];
        let latest = match store.latest_state(env.id) {
            Some(rec) => Some(rec.json),
            None => None,
        };
        let reported = find_hash(report, &env.name);
        let ghost prefix = genvs.take(i as int);
        proof {
            assert(genvs.take(i + 1) =~= prefix.push(genvs[i as int]));
            assert(genvs.take(i + 1).drop_last() =~= prefix);
            assert(genvs.take(i + 1).last() == genvs[i as int]);
            assert(env@ == genvs[i as int]);
            assert(latest.deep_view() == latest_doc(store@, genvs[i as int].id));
            assert(reported.deep_view() == hash_for(report.deep_view(), genvs[i as int].name));
        }
        match classify_drift(latest, &reported) {
            Some(u) => {
                let name = env.name.clone();
                out.push((name, u));
                proof {
                    assert(classify_spec(
                        latest_doc(store@, genvs[i as int].id),
                        hash_for(report.deep_view(), genvs[i as int].name),
                    ) == Some(u@));
                    assert(out.deep_view() =~= updates_for(
                        store@,
                        report.deep_view(),
                        genvs.take(i + 1),
                    ));
                }
            },
            None => {
                proof {
                    assert(classify_spec(
                        latest_doc(store@, genvs[i as int].id),
                        hash_for(report.deep_view(), genvs[i as int].name),
                    ) is None);
                    assert(out.deep_view() =~= updates_for(
                        store@,
                        report.deep_view(),
                        genvs.take(i + 1),
                    ));
                }
            },
        }
        i += 1;
    }
    proof {
        assert(genvs.take(n as int) =~= genvs);
    }
    Ok(out)
}

proof fn lemma_updates_keys(
    store: StoreView,
    report: Seq<(Seq<char>, Seq<u8>)>,
    envs: Seq<EnvironmentView>,
    k: int,
)
    requires
        0 <= k < updates_for(store, report, envs).len(),
    ensures
        exists|j: int|
            0 <= j < envs.len() && (#[trigger] envs[j]).name == updates_for(store, report, envs)[k].0,
    decreases envs.len(),
{
    if envs.len() > 0 {
        let rest = updates_for(store, report, envs.drop_last());
        let e = envs.last();
        let full = updates_for(store, report, envs);
        match classify_spec(latest_doc(store, e.id), hash_for(report, e.name)) {
            Some(u) => {
                if k < rest.len() {
                    lemma_updates_keys(store, report, envs.drop_last(), k);
                    let j = choose|j: int|
                        0 <= j < envs.drop_last().len() && (#[trigger] envs.drop_last()[j]).name
                            == rest[k].0;
                    assert(envs[j] == envs.drop_last()[j]);
                    assert(full[k] == rest[k]);
                    assert(envs[j].name == full[k].0);
                } else {
                    assert(full[k] == (e.name, u));
                    assert(envs[envs.len() - 1].name == full[k].0);
                }
            },
            None => {
                lemma_updates_keys(store, report, envs.drop_last(), k);
                let j = choose|j: int|
                    0 <= j < envs.drop_last().len() && (#[trigger] envs.drop_last()[j]).name
                        == rest[k].0;
                assert(envs[j] == envs.drop_last()[j]);
                assert(envs[j].name == full[k].0);
            },
        }
    }
}

/// Law: enrollment scoping.  Every entry of the update map built for a
/// device names an environment that the device is enrolled in; an
/// environment outside its enrollment set never appears, however many
/// other environments the store holds.
pub proof fn lemma_enrollment_scoping(
    store: StoreView,
    report: Seq<(Seq<char>, Seq<u8>)>,
    device_id: u64,
    k: int,
)
    requires
        0 <= k < updates_for(
            store,
            report,
            store.environments.filter(enrolled_pred(store.enrollments, device_id)),
        ).len(),
    ensures
        exists|j: int|
            0 <= j < store.environments.len() && (#[trigger] store.environments[j]).name
                == updates_for(
                store,
                report,
                store.environments.filter(enrolled_pred(store.enrollments, device_id)),
            )[k].0 && crate::store::is_enrolled(
                store.enrollments,
                device_id,
                store.environments[j].id,
            ),
{
    let envs = store.environments.filter(enrolled_pred(store.enrollments, device_id));
    lemma_updates_keys(store, report, envs, k);
    let j0 = choose|j: int|
        0 <= j < envs.len() && (#[trigger] envs[j]).name == updates_for(store, report, envs)[k].0;
    crate::diff::lemma_filter_in_source(
        store.environments,
        enrolled_pred(store.enrollments, device_id),
        j0,
    );
    let j = choose|j: int|
        0 <= j < store.environments.len() && #[trigger] store.environments[j] == envs[j0];
    assert(enrolled_pred(store.enrollments, device_id)(envs[j0]));
    assert(store.environments[j].name == updates_for(store, report, envs)[k].0);
    assert(crate::store::is_enrolled(store.enrollments, device_id, store.environments[j].id));
}

} // verus!
