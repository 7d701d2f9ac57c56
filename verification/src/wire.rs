//! Device-protocol message types.
//!
//! The coordinator and a device exchange three messages over a persistent
//! connection: a bare status request, the device's status report (its state
//! and one 16-byte content hash per environment it holds), and the update
//! map pushing per-environment operations.  The binary codec for these
//! messages lives in [`crate::codec`].

use vstd::prelude::*;

verus! {

/// A 16-byte content digest, compared byte for byte.
pub type StateHash = [u8; 16];

/// What a device must do to one environment.
#[derive(PartialEq, Eq, Structural, Clone, Copy, Debug)]
pub enum EnvironmentUpdateOperation {
    Create,
    Update,
    Destroy,
}

/// One environment's pending change: the operation and, for create and
/// update, the full desired-state document.
pub struct EnvironmentUpdate {
    pub state: Option<String>,
    pub operation: EnvironmentUpdateOperation,
}

pub struct EnvironmentUpdateView {
    pub state: Option<Seq<char>>,
    pub operation: EnvironmentUpdateOperation,
}

impl View for EnvironmentUpdate {
    type V = EnvironmentUpdateView;

    open spec fn view(&self) -> EnvironmentUpdateView {
        EnvironmentUpdateView { state: self.state.deep_view(), operation: self.operation }
    }
}

impl DeepView for EnvironmentUpdate {
    type V = EnvironmentUpdateView;

    open spec fn deep_view(&self) -> EnvironmentUpdateView {
        self.view()
    }
}

impl Clone for EnvironmentUpdate {
    fn clone(&self) -> (res: Self)
        ensures
            res@ == self@,
    {
        let state = match &self.state {
            Some(s) => Some(s.clone()),
            None => None,
        };
        EnvironmentUpdate { state, operation: self.operation }
    }
}

/// Where a device stands in its reconciliation cycle.
#[derive(PartialEq, Eq, Structural, Clone, Copy, Debug)]
pub enum DeviceStatus {
    Idle,
    InProgress,
    Ready,
}

/// A device's answer to a status request: its state, a timestamp and one
/// content hash per environment it holds locally.
pub struct CurrentStatusResponse {
    pub status: DeviceStatus,
    pub timestamp: String,
    pub state_hashes: Vec<(String, StateHash)>,
}

pub struct CurrentStatusResponseView {
    pub status: DeviceStatus,
    pub timestamp: Seq<char>,
    pub state_hashes: Seq<(Seq<char>, Seq<u8>)>,
}

impl View for CurrentStatusResponse {
    type V = CurrentStatusResponseView;

    open spec fn view(&self) -> CurrentStatusResponseView {
        CurrentStatusResponseView {
            status: self.status,
            timestamp: self.timestamp@,
            state_hashes: Seq::new(
                self.state_hashes@.len(),
                |i: int| (self.state_hashes@[i].0@, self.state_hashes@[i].1@),
            ),
        }
    }
}

/// What the coordinator sends a device: either a status request or the
/// per-environment update map.
pub enum RequestOperations {
    StatusRequest,
    UpdateEnvironmentsRequest(Vec<(String, EnvironmentUpdate)>),
}

pub enum RequestOperationsView {
    StatusRequest,
    UpdateEnvironmentsRequest(Seq<(Seq<char>, EnvironmentUpdateView)>),
}

impl View for RequestOperations {
    type V = RequestOperationsView;

    open spec fn view(&self) -> RequestOperationsView {
        match self {
            RequestOperations::StatusRequest => RequestOperationsView::StatusRequest,
            RequestOperations::UpdateEnvironmentsRequest(m) => {
                RequestOperationsView::UpdateEnvironmentsRequest(
                    Seq::new(m@.len(), |i: int| (m@[i].0@, m@[i].1@)),
                )
            },
        }
    }
}

/// Compares two 16-byte hashes byte for byte.
pub fn hash_eq(a: &StateHash, b: &StateHash) -> (r: bool)
    ensures
        r == (a@ == b@),
{
    let mut i: usize = 0;
    while i < 16
        invariant
            i <= 16,
            forall|j: int| 0 <= j < i ==> a@[j] == b@[j],
        decreases 16 - i,
    {
        if a[i] != b[i] {
            return false;
        }
        i += 1;
    }
    proof {
        assert(a@ =~= b@);
    }
    true
}

} // verus!
