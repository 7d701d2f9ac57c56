//! The diff engine.
//!
//! A desired-state document embeds a urn-keyed set of resources.
//! [`compute_delta`] is the pure three-way delta between two such sets:
//! resources to create (in `remote` only), to delete (in `local` only) and
//! to update (in both, with parameters that differ under deep structural
//! equality).  Together the three outputs partition exactly the urns that
//! differ by presence or by content; a urn bound to equivalent parameters
//! on both sides lands in none of them.

use vstd::prelude::*;

use crate::errors::ResourceError;
use crate::json::{json_eq, json_equiv, json_wf, wf_json, JsonValue, JsonView};

verus! {

/// One resource of a desired-state document: a three-part urn and the
/// parameters handed to its provider.
pub struct Resource {
    pub urn: String,
    pub parameters: JsonValue,
}

/// The mathematical view of a [`Resource`].
pub struct ResourceView {
    pub urn: Seq<char>,
    pub parameters: JsonView,
}

impl View for Resource {
    type V = ResourceView;

    open spec fn view(&self) -> ResourceView {
        ResourceView { urn: self.urn@, parameters: self.parameters@ }
    }
}

impl DeepView for Resource {
    type V = ResourceView;

    open spec fn deep_view(&self) -> ResourceView {
        self.view()
    }
}

impl Clone for Resource {
    /// Deep copy; the clone has the same view.
    fn clone(&self) -> (res: Self)
        ensures
            res@ == self@,
    {
        Resource { urn: self.urn.clone(), parameters: self.parameters.clone() }
    }
}

/// No two resources share a urn.
pub open spec fn unique_urns(s: Seq<ResourceView>) -> bool {
    forall|i: int, j: int| 0 <= i < j < s.len() ==> (#[trigger] s[i]).urn != (#[trigger] s[j]).urn
}

/// The resource keyed by `u`, scanning back to front.
pub open spec fn lookup_res(s: Seq<ResourceView>, u: Seq<char>) -> Option<ResourceView>
    decreases s.len(),
{
    if s.len() == 0 {
        None
    } else if s.last().urn == u {
        Some(s.last())
    } else {
        lookup_res(s.drop_last(), u)
    }
}

/// Some resource of `s` is keyed by `u`.
pub open spec fn has_urn(s: Seq<ResourceView>, u: Seq<char>) -> bool {
    lookup_res(s, u) is Some
}

/// A urn-keyed resource set: the unit the diff engine works on.  Its urns
/// are unique and every parameter value is well formed.
pub struct ResourceSet {
    pub resources: Vec<Resource>,
}

impl ResourceSet {
    pub open spec fn view(&self) -> Seq<ResourceView> {
        self.resources.deep_view()
    }

    /// Unique urns, well-formed parameters.
    pub open spec fn wf(&self) -> bool {
        &&& unique_urns(self.view())
        &&& forall|i: int| 0 <= i < self.view().len() ==> wf_json(
            (#[trigger] self.view()[i]).parameters,
        )
    }

    /// Builds a set from a resource list, rejecting a duplicated urn and an
    /// object with a repeated key rather than letting a later entry shadow
    /// an earlier one.
    pub fn from_resources(resources: Vec<Resource>) -> (r: Result<ResourceSet, ResourceError>)
        ensures
            r matches Ok(s) ==> s.wf() && s@ == resources.deep_view(),
            r is Err ==> !(ResourceSet { resources }).wf(),
    {
        let n = resources.len();
        let mut i: usize = 0;
        while i < n
            invariant
                i <= n,
                n == resources@.len(),
                forall|p: int, q: int| 0 <= p < q < i ==> (#[trigger] resources.deep_view()[p]).urn
                    != (#[trigger] resources.deep_view()[q]).urn,
                forall|p: int| 0 <= p < i ==> wf_json(
                    (#[trigger] resources.deep_view()[p]).parameters,
                ),
            decreases n - i,
        {
            let mut j: usize = 0;
            while j < i
                invariant
                    j <= i < n,
                    n == resources@.len(),
                    forall|p: int| 0 <= p < j ==> (#[trigger] resources.deep_view()[p]).urn
                        != resources.deep_view()[i as int].urn,
                decreases i - j,
            {
                if resources[j].urn.eq(&resources[i].urn) {
                    assert((resources.deep_view()[j as int]).urn == (resources.deep_view()[
                        i as int
                    ]).urn);
                    return Err(ResourceError::DuplicateUrn);
                }
                j += 1;
            }
            if !json_wf(&resources[i].parameters) {
                return Err(ResourceError::InvalidParameters);
            }
            i += 1;
        }
        Ok(ResourceSet { resources })
    }

    /// The resource keyed by `u`, if the set holds one.
    pub fn find<'a>(&'a self, u: &String) -> (r: Option<&'a Resource>)
        ensures
            match r {
                Some(res) => lookup_res(self@, u@) == Some(res@),
                None => lookup_res(self@, u@) is None,
            },
    {
        let mut i: usize = self.resources.len();
        proof {
            assert(self@.take(i as int) =~= self@);
        }
        while i > 0
            invariant
                i <= self.resources@.len(),
                lookup_res(self@, u@) == lookup_res(self@.take(i as int), u@),
            decreases i,
        {
            i -= 1;
            let ghost prefix = self@.take(i + 1);
            proof {
                assert(prefix.last() == self@[i as int]);
                assert(prefix.drop_last() =~= self@.take(i as int));
            }
            if self.resources[i].urn.eq(u) {
                return Some(&self.resources[i]);
            }
        }
        proof {
            assert(self@.take(0) =~= Seq::<ResourceView>::empty());
        }
        None
    }
}

/// The three-way delta between two resource sets.
pub struct StateDelta {
    pub resources_to_create: Vec<Resource>,
    pub resources_to_delete: Vec<Resource>,
    pub resources_to_update: Vec<Resource>,
}

/// Membership test of the `to_create` output: keyed in `remote` only.
pub open spec fn create_pred(local: Seq<ResourceView>) -> spec_fn(ResourceView) -> bool {
    |r: ResourceView| !has_urn(local, r.urn)
}

/// Membership test of the `to_update` output: keyed in both sets, with
/// parameters that differ under deep structural equality.
pub open spec fn update_pred(local: Seq<ResourceView>) -> spec_fn(ResourceView) -> bool {
    |r: ResourceView|
        match lookup_res(local, r.urn) {
            Some(x) => !json_equiv(x.parameters, r.parameters),
            None => false,
        }
}

/// What `to_create` must be: the `remote` resources absent from `local`,
/// in `remote` order.
pub open spec fn delta_create(local: Seq<ResourceView>, remote: Seq<ResourceView>) -> Seq<
    ResourceView,
> {
    remote.filter(create_pred(local))
}

/// What `to_delete` must be: the `local` resources absent from `remote`,
/// in `local` order.
pub open spec fn delta_delete(local: Seq<ResourceView>, remote: Seq<ResourceView>) -> Seq<
    ResourceView,
> {
    local.filter(create_pred(remote))
}

/// What `to_update` must be: the `remote` resources whose urn `local` also
/// holds but with structurally different parameters, in `remote` order.
pub open spec fn delta_update(local: Seq<ResourceView>, remote: Seq<ResourceView>) -> Seq<
    ResourceView,
> {
    remote.filter(update_pred(local))
}

proof fn lemma_lookup_urn(s: Seq<ResourceView>, u: Seq<char>)
    ensures
        lookup_res(s, u) matches Some(x) ==> x.urn == u,
    decreases s.len(),
{
    if s.len() > 0 && s.last().urn != u {
        lemma_lookup_urn(s.drop_last(), u);
    }
}

proof fn lemma_lookup_none_iff(s: Seq<ResourceView>, u: Seq<char>)
    ensures
        (lookup_res(s, u) is None) <==> (forall|i: int|
            0 <= i < s.len() ==> (#[trigger] s[i]).urn != u),
    decreases s.len(),
{
    if s.len() > 0 {
        lemma_lookup_none_iff(s.drop_last(), u);
        let t = s.drop_last();
        assert forall|i: int| 0 <= i < t.len() implies #[trigger] t[i] == s[i] by {}
        if s.last().urn != u && lookup_res(t, u) is None {
            assert forall|i: int| 0 <= i < s.len() implies (#[trigger] s[i]).urn != u by {
                if i < s.len() - 1 {
                    assert(t[i] == s[i]);
                }
            }
        }
    }
}

proof fn lemma_unique_drop_last(s: Seq<ResourceView>)
    requires
        unique_urns(s),
        s.len() > 0,
    ensures
        unique_urns(s.drop_last()),
{
    let t = s.drop_last();
    assert forall|i: int, j: int| 0 <= i < j < t.len() implies (#[trigger] t[i]).urn != (
    #[trigger] t[j]).urn by {
        assert(t[i] == s[i]);
        assert(t[j] == s[j]);
    }
}

proof fn lemma_lookup_at_unique(s: Seq<ResourceView>, i: int)
    requires
        unique_urns(s),
        0 <= i < s.len(),
    ensures
        lookup_res(s, s[i].urn) == Some(s[i]),
    decreases s.len(),
{
    if i == s.len() - 1 {
        assert(s.last() == s[i]);
    } else {
        assert(s.last() == s[s.len() - 1]);
        assert(s[i].urn != s.last().urn);
        lemma_unique_drop_last(s);
        let t = s.drop_last();
        assert(t[i] == s[i]);
        lemma_lookup_at_unique(t, i);
    }
}

proof fn lemma_lookup_filter(s: Seq<ResourceView>, pred: spec_fn(ResourceView) -> bool, u: Seq<char>)
    requires
        unique_urns(s),
    ensures
        lookup_res(s.filter(pred), u) == (match lookup_res(s, u) {
            Some(x) => if pred(x) {
                Some(x)
            } else {
                None::<ResourceView>
            },
            None => None::<ResourceView>,
        }),
    decreases s.len(),
{
    reveal(Seq::filter);
    if s.len() == 0 {
        assert(s.filter(pred) =~= Seq::<ResourceView>::empty());
    } else {
        let e = s.last();
        let t = s.drop_last();
        lemma_unique_drop_last(s);
        lemma_lookup_filter(t, pred, u);
        if e.urn == u {
            assert(lookup_res(s, u) == Some(e));
            assert forall|i: int| 0 <= i < t.len() implies (#[trigger] t[i]).urn != u by {
                assert(t[i] == s[i]);
                assert(s[i].urn != s[s.len() - 1].urn);
            }
            lemma_lookup_none_iff(t, u);
            if pred(e) {
                assert(s.filter(pred) == t.filter(pred).push(e));
                assert(s.filter(pred).last() == e);
                assert(s.filter(pred).drop_last() =~= t.filter(pred));
            } else {
                assert(s.filter(pred) == t.filter(pred));
            }
        } else {
            assert(lookup_res(s, u) == lookup_res(t, u));
            if pred(e) {
                assert(s.filter(pred) == t.filter(pred).push(e));
                assert(s.filter(pred).last() == e);
                assert(s.filter(pred).drop_last() =~= t.filter(pred));
            } else {
                assert(s.filter(pred) == t.filter(pred));
            }
        }
    }
}

proof fn lemma_filter_none<A>(s: Seq<A>, pred: spec_fn(A) -> bool)
    requires
        forall|i: int| 0 <= i < s.len() ==> !pred(#[trigger] s[i]),
    ensures
        s.filter(pred) == Seq::<A>::empty(),
    decreases s.len(),
{
    reveal(Seq::filter);
    if s.len() == 0 {
        assert(s.filter(pred) =~= Seq::<A>::empty());
    } else {
        let t = s.drop_last();
        assert forall|i: int| 0 <= i < t.len() implies !pred(#[trigger] t[i]) by {
            assert(t[i] == s[i]);
        }
        lemma_filter_none(t, pred);
        assert(s.last() == s[s.len() - 1]);
    }
}

/// Law: for any two urn-keyed sets, the three delta outputs partition
/// exactly the urns that differ by presence or by content.  A urn keyed in
/// `remote` only is created; one keyed in `local` only is deleted; one keyed
/// in both is updated exactly when its parameters differ structurally; and a
/// urn bound to equivalent parameters on both sides lands in none of the
/// three outputs.
pub proof fn lemma_delta_partition(local: Seq<ResourceView>, remote: Seq<ResourceView>, u: Seq<char>)
    requires
        unique_urns(local),
        unique_urns(remote),
    ensures
        has_urn(delta_create(local, remote), u) <==> (has_urn(remote, u) && !has_urn(local, u)),
        has_urn(delta_delete(local, remote), u) <==> (has_urn(local, u) && !has_urn(remote, u)),
        has_urn(delta_update(local, remote), u) <==> (match (
            lookup_res(local, u),
            lookup_res(remote, u),
        ) {
            (Some(a), Some(b)) => !json_equiv(a.parameters, b.parameters),
            _ => false,
        }),
        (match (lookup_res(local, u), lookup_res(remote, u)) {
            (Some(a), Some(b)) => json_equiv(a.parameters, b.parameters),
            _ => false,
        }) ==> !has_urn(delta_create(local, remote), u) && !has_urn(
            delta_delete(local, remote),
            u,
        ) && !has_urn(delta_update(local, remote), u),
{
    lemma_lookup_filter(remote, create_pred(local), u);
    lemma_lookup_filter(local, create_pred(remote), u);
    lemma_lookup_filter(remote, update_pred(local), u);
    lemma_lookup_urn(remote, u);
    lemma_lookup_urn(local, u);
}

/// Law: diffing a set against itself yields the empty delta.
pub proof fn lemma_delta_self_empty(s: Seq<ResourceView>)
    requires
        unique_urns(s),
        forall|i: int| 0 <= i < s.len() ==> wf_json((#[trigger] s[i]).parameters),
    ensures
        delta_create(s, s) == Seq::<ResourceView>::empty(),
        delta_delete(s, s) == Seq::<ResourceView>::empty(),
        delta_update(s, s) == Seq::<ResourceView>::empty(),
{
    assert forall|i: int| 0 <= i < s.len() implies !(create_pred(s)(#[trigger] s[i])) by {
        lemma_lookup_at_unique(s, i);
    }
    assert forall|i: int| 0 <= i < s.len() implies !(update_pred(s)(#[trigger] s[i])) by {
        lemma_lookup_at_unique(s, i);
        crate::json::lemma_json_equiv_refl(s[i].parameters);
    }
    lemma_filter_none(s, create_pred(s));
    lemma_filter_none(s, update_pred(s));
}

/// An element of a filtered sequence satisfies the test and comes from the
/// source sequence.
pub(crate) proof fn lemma_filter_in_source<A>(s: Seq<A>, pred: spec_fn(A) -> bool, i: int)
    requires
        0 <= i < s.filter(pred).len(),
    ensures
        pred(s.filter(pred)[i]),
        exists|j: int| 0 <= j < s.len() && #[trigger] s[j] == s.filter(pred)[i],
    decreases s.len(),
{
    reveal(Seq::filter);
    if s.len() > 0 {
        let t = s.drop_last();
        let f = s.filter(pred);
        if pred(s.last()) {
            if i == f.len() - 1 {
                assert(f[i] == s.last());
                assert(s[s.len() - 1] == f[i]);
            } else {
                lemma_filter_in_source(t, pred, i);
                assert(t.filter(pred)[i] == f[i]);
                let j = choose|j: int| 0 <= j < t.len() && #[trigger] t[j] == t.filter(pred)[i];
                assert(s[j] == f[i]);
            }
        } else {
            lemma_filter_in_source(t, pred, i);
            assert(t.filter(pred)[i] == f[i]);
            let j = choose|j: int| 0 <= j < t.len() && #[trigger] t[j] == t.filter(pred)[i];
            assert(s[j] == f[i]);
        }
    }
}

pub(crate) proof fn lemma_filter_push<A>(s: Seq<A>, pred: spec_fn(A) -> bool, e: A)
    ensures
        s.push(e).filter(pred) == if pred(e) {
            s.filter(pred).push(e)
        } else {
            s.filter(pred)
        },
{
    reveal(Seq::filter);
    assert(s.push(e).drop_last() =~= s);
    assert(s.push(e).last() == e);
}

/// Computes the three-way delta of two urn-keyed resource sets.  Pure: it
/// reads both sets and builds fresh copies.
pub fn compute_delta(local: &ResourceSet, remote: &ResourceSet) -> (delta: StateDelta)
    ensures
        delta.resources_to_create.deep_view() == delta_create(local@, remote@),
        delta.resources_to_delete.deep_view() == delta_delete(local@, remote@),
        delta.resources_to_update.deep_view() == delta_update(local@, remote@),
{
    let mut to_create: Vec<Resource> = Vec::new();
    let mut to_delete: Vec<Resource> = Vec::new();
    let mut to_update: Vec<Resource> = Vec::new();

    let n = remote.resources.len();
    let mut i: usize = 0;
    while i < n
        invariant
            i <= n,
            n == remote@.len(),
            to_create.deep_view() == delta_create(local@, remote@.take(i as int)),
            to_update.deep_view() == delta_update(local@, remote@.take(i as int)),
        decreases n - i,
    {
        let r = &remote.resources[i];
        let ghost prefix = remote@.take(i as int);
        proof {
            assert(remote@.take(i + 1) =~= prefix.push(remote@[i as int]));
            lemma_filter_push(prefix, create_pred(local@), remote@[i as int]);
            lemma_filter_push(prefix, update_pred(local@), remote@[i as int]);
        }
        match local.find(&r.urn) {
            None => {
                let c = r.clone();
                to_create.push(c);
                proof {
                    assert(to_create.deep_view() =~= delta_create(local@, remote@.take(i + 1)));
                    assert(to_update.deep_view() =~= delta_update(local@, remote@.take(i + 1)));
                }
            },
            Some(x) => {
                if !json_eq(&x.parameters, &r.parameters) {
                    let c = r.clone();
                    to_update.push(c);
                    proof {
                        assert(to_update.deep_view() =~= delta_update(local@, remote@.take(i + 1)));
                    }
                }
                proof {
                    assert(to_create.deep_view() =~= delta_create(local@, remote@.take(i + 1)));
                    assert(to_update.deep_view() =~= delta_update(local@, remote@.take(i + 1)));
                }
            },
        }
        i += 1;
    }
    proof {
        assert(remote@.take(n as int) =~= remote@);
    }

    let m = local.resources.len();
    let mut k: usize = 0;
    while k < m
        invariant
            k <= m,
            m == local@.len(),
            to_delete.deep_view() == delta_delete(local@.take(k as int), remote@),
        decreases m - k,
    {
        let r = &local.resources[k];
        let ghost prefix = local@.take(k as int);
        proof {
            assert(local@.take(k + 1) =~= prefix.push(local@[k as int]));
            lemma_filter_push(prefix, create_pred(remote@), local@[k as int]);
        }
        match remote.find(&r.urn) {
            None => {
                let c = r.clone();
                to_delete.push(c);
                proof {
                    assert(to_delete.deep_view() =~= delta_delete(local@.take(k + 1), remote@));
                }
            },
            Some(_) => {
                proof {
                    assert(to_delete.deep_view() =~= delta_delete(local@.take(k + 1), remote@));
                }
            },
        }
        k += 1;
    }
    proof {
        assert(local@.take(m as int) =~= local@);
    }

    StateDelta { resources_to_create: to_create, resources_to_delete: to_delete, resources_to_update: to_update }
}

} // verus!
