//! Structured documents.
//!
//! Desired-state documents embed resources whose parameters are structured
//! values: null, booleans, integers, text, arrays and objects.  The diff
//! engine compares parameters under deep structural equality, where the
//! order of an object's keys is irrelevant but value kinds must match
//! exactly.  [`json_equiv`] is that relation, stated over the mathematical
//! view of a value, and [`json_eq`] decides it.

use vstd::prelude::*;

verus! {

broadcast use {
    vstd::std_specs::vec::axiom_vec_index_decreases,
    vstd::std_specs::vec::axiom_vec_decreases_to_view,
    vstd::seq::axiom_seq_index_decreases,
    vstd::seq::axiom_seq_subrange_decreases,
};

/// One structured value of a document.
#[derive(Debug)]
pub enum JsonValue {
    Null,
    Bool(bool),
    Int(i64),
    Str(String),
    Array(Vec<JsonValue>),
    Object(Vec<(String, JsonValue)>),
}

/// The mathematical view of a [`JsonValue`].
pub enum JsonView {
    Null,
    Bool(bool),
    Int(int),
    Str(Seq<char>),
    Array(Seq<JsonView>),
    Object(Seq<(Seq<char>, JsonView)>),
}

pub open spec fn json_view(v: JsonValue) -> JsonView
    decreases v,
{
    match v {
        JsonValue::Null => JsonView::Null,
        JsonValue::Bool(b) => JsonView::Bool(b),
        JsonValue::Int(n) => JsonView::Int(n as int),
        JsonValue::Str(s) => JsonView::Str(s@),
        JsonValue::Array(items) => JsonView::Array(json_view_seq(items@)),
        JsonValue::Object(fields) => JsonView::Object(json_view_fields(fields@)),
    }
}

pub open spec fn json_view_seq(s: Seq<JsonValue>) -> Seq<JsonView>
    decreases s,
{
    if s.len() == 0 {
        Seq::empty()
    } else {
        seq![json_view(s[0])] + json_view_seq(s.drop_first())
    }
}

pub open spec fn json_view_fields(s: Seq<(String, JsonValue)>) -> Seq<(Seq<char>, JsonView)>
    decreases s,
{
    if s.len() == 0 {
        Seq::empty()
    } else {
        seq![(s[0].0@, json_view(s[0].1))] + json_view_fields(s.drop_first())
    }
}

impl View for JsonValue {
    type V = JsonView;

    open spec fn view(&self) -> JsonView {
        json_view(*self)
    }
}

pub broadcast proof fn lemma_json_view_seq(s: Seq<JsonValue>)
    ensures
        (#[trigger] json_view_seq(s)).len() == s.len(),
        forall|i: int| 0 <= i < s.len() ==> json_view_seq(s)[i] == json_view(s[i]),
    decreases s,
{
    if s.len() > 0 {
        lemma_json_view_seq(s.drop_first());
    }
}

pub broadcast proof fn lemma_json_view_fields(s: Seq<(String, JsonValue)>)
    ensures
        (#[trigger] json_view_fields(s)).len() == s.len(),
        forall|i: int| 0 <= i < s.len() ==> json_view_fields(s)[i] == (s[i].0@, json_view(
            s[i].1,
        )),
    decreases s,
{
    if s.len() > 0 {
        lemma_json_view_fields(s.drop_first());
    }
}

/// The value bound to key `k`, scanning the fields front to back.
pub open spec fn obj_lookup(fields: Seq<(Seq<char>, JsonView)>, k: Seq<char>) -> Option<JsonView>
    decreases fields.len(),
{
    if fields.len() == 0 {
        None
    } else if fields[0].0 == k {
        Some(fields[0].1)
    } else {
        obj_lookup(fields.drop_first(), k)
    }
}

/// Deep structural equality: value kinds match exactly, arrays match
/// position by position, objects match key by key with the order of keys
/// irrelevant.
pub open spec fn json_equiv(a: JsonView, b: JsonView) -> bool
    decreases a, 0int,
{
    match (a, b) {
        (JsonView::Null, JsonView::Null) => true,
        (JsonView::Bool(x), JsonView::Bool(y)) => x == y,
        (JsonView::Int(x), JsonView::Int(y)) => x == y,
        (JsonView::Str(x), JsonView::Str(y)) => x == y,
        (JsonView::Array(x), JsonView::Array(y)) => {
            &&& x.len() == y.len()
            &&& forall|i: int| 0 <= i < x.len() ==> json_equiv(x[i], y[i])
        },
        (JsonView::Object(x), JsonView::Object(y)) => {
            &&& x.len() == y.len()
            &&& forall|i: int| 0 <= i < x.len() ==> obj_entry_equiv(y, x[i].0, x[i].1)
        },
        _ => false,
    }
}

/// Key `k` is bound in `fields` to a value equivalent to `v`.
pub open spec fn obj_entry_equiv(
    fields: Seq<(Seq<char>, JsonView)>,
    k: Seq<char>,
    v: JsonView,
) -> bool
    decreases v, 1int,
{
    match obj_lookup(fields, k) {
        Some(w) => json_equiv(v, w),
        None => false,
    }
}

/// The keys of an object's fields are pairwise distinct.
pub open spec fn distinct_keys(x: Seq<(Seq<char>, JsonView)>) -> bool {
    forall|i: int, j: int| 0 <= i < j < x.len() ==> (#[trigger] x[i]).0 != (#[trigger] x[j]).0
}

/// A well-formed value: within any one object the keys are distinct.
pub open spec fn wf_json(v: JsonView) -> bool
    decreases v, 1int,
{
    match v {
        JsonView::Array(x) => wf_json_seq(x),
        JsonView::Object(x) => distinct_keys(x) && wf_json_entries(x),
        _ => true,
    }
}

pub open spec fn wf_json_seq(x: Seq<JsonView>) -> bool
    decreases x, 0int,
{
    if x.len() == 0 {
        true
    } else {
        wf_json(x.first()) && wf_json_seq(x.drop_first())
    }
}

pub open spec fn wf_json_entries(x: Seq<(Seq<char>, JsonView)>) -> bool
    decreases x, 0int,
{
    if x.len() == 0 {
        true
    } else {
        wf_json(x.first().1) && wf_json_entries(x.drop_first())
    }
}

/// Element-wise reading of [`wf_json_seq`].
pub proof fn lemma_wf_json_seq_index(x: Seq<JsonView>)
    ensures
        wf_json_seq(x) <==> (forall|i: int| 0 <= i < x.len() ==> wf_json(#[trigger] x[i])),
    decreases x.len(),
{
    if x.len() > 0 {
        lemma_wf_json_seq_index(x.drop_first());
        let rest = x.drop_first();
        assert forall|i: int| 0 <= i < rest.len() implies rest[i] == x[i + 1] by {}
        if wf_json_seq(x) {
            assert forall|i: int| 0 <= i < x.len() implies wf_json(#[trigger] x[i]) by {
                if i == 0 {
                    assert(x[0] == x.first());
                } else {
                    assert(rest[i - 1] == x[i]);
                }
            }
        } else {
            if forall|i: int| 0 <= i < x.len() ==> wf_json(#[trigger] x[i]) {
                assert(wf_json(x.first())) by {
                    assert(x.first() == x[0]);
                }
                assert forall|i: int| 0 <= i < rest.len() implies wf_json(#[trigger] rest[i]) by {
                    assert(rest[i] == x[i + 1]);
                }
                assert(wf_json_seq(rest));
            }
        }
    }
}

/// Element-wise reading of [`wf_json_entries`].
pub proof fn lemma_wf_json_entries_index(x: Seq<(Seq<char>, JsonView)>)
    ensures
        wf_json_entries(x) <==> (forall|i: int|
            0 <= i < x.len() ==> wf_json((#[trigger] x[i]).1)),
    decreases x.len(),
{
    if x.len() > 0 {
        lemma_wf_json_entries_index(x.drop_first());
        let rest = x.drop_first();
        if wf_json_entries(x) {
            assert forall|i: int| 0 <= i < x.len() implies wf_json((#[trigger] x[i]).1) by {
                if i == 0 {
                    assert(x[0] == x.first());
                } else {
                    assert(rest[i - 1] == x[i]);
                }
            }
        } else {
            if forall|i: int| 0 <= i < x.len() ==> wf_json((#[trigger] x[i]).1) {
                assert(wf_json(x.first().1)) by {
                    assert(x.first() == x[0]);
                }
                assert forall|i: int| 0 <= i < rest.len() implies wf_json(
                    (#[trigger] rest[i]).1,
                ) by {
                    assert(rest[i] == x[i + 1]);
                }
                assert(wf_json_entries(rest));
            }
        }
    }
}

proof fn lemma_obj_lookup_at(fields: Seq<(Seq<char>, JsonView)>, i: int)
    requires
        0 <= i < fields.len(),
        forall|j: int| 0 <= j < i ==> (#[trigger] fields[j]).0 != fields[i].0,
    ensures
        obj_lookup(fields, fields[i].0) == Some(fields[i].1),
    decreases i,
{
    if i > 0 {
        let rest = fields.drop_first();
        assert(rest[i - 1] == fields[i]);
        assert forall|j: int| 0 <= j < i - 1 implies (#[trigger] rest[j]).0 != rest[i - 1].0 by {
            assert(rest[j] == fields[j + 1]);
        }
        lemma_obj_lookup_at(rest, i - 1);
    }
}

proof fn lemma_obj_lookup_none(fields: Seq<(Seq<char>, JsonView)>, k: Seq<char>)
    requires
        forall|j: int| 0 <= j < fields.len() ==> (#[trigger] fields[j]).0 != k,
    ensures
        obj_lookup(fields, k) is None,
    decreases fields.len(),
{
    if fields.len() > 0 {
        let rest = fields.drop_first();
        assert forall|j: int| 0 <= j < rest.len() implies (#[trigger] rest[j]).0 != k by {
            assert(rest[j] == fields[j + 1]);
        }
        lemma_obj_lookup_none(rest, k);
    }
}

/// Under well-formedness every value is equivalent to itself.
pub proof fn lemma_json_equiv_refl(a: JsonView)
    requires
        wf_json(a),
    ensures
        json_equiv(a, a),
    decreases a,
{
    match a {
        JsonView::Array(x) => {
            lemma_wf_json_seq_index(x);
            assert forall|i: int| 0 <= i < x.len() implies json_equiv(x[i], x[i]) by {
                lemma_json_equiv_refl(x[i]);
            }
        },
        JsonView::Object(x) => {
            lemma_wf_json_entries_index(x);
            assert forall|i: int| 0 <= i < x.len() implies obj_entry_equiv(x, x[i].0, x[i].1) by {
                lemma_obj_lookup_at(x, i);
                lemma_json_equiv_refl(x[i].1);
            }
        },
        _ => {},
    }
}

/// First field bound to `k`, scanning front to back.
fn obj_get<'a>(fields: &'a Vec<(String, JsonValue)>, k: &String) -> (r: Option<&'a JsonValue>)
    ensures
        match r {
            Some(v) => obj_lookup(json_view_fields(fields@), k@) == Some(v@),
            None => obj_lookup(json_view_fields(fields@), k@) is None,
        },
{
    proof {
        lemma_json_view_fields(fields@);
    }
    let mut i: usize = 0;
    while i < fields.len()
        invariant
            i <= fields.len(),
            json_view_fields(fields@).len() == fields@.len(),
            forall|j: int| 0 <= j < fields@.len() ==> #[trigger] json_view_fields(fields@)[j] == (
                fields@[j].0@,
                json_view(fields@[j].1),
            ),
            forall|j: int| 0 <= j < i ==> (#[trigger] json_view_fields(fields@)[j]).0 != k@,
        decreases fields.len() - i,
    {
        if fields[i].0.eq(k) {
            proof {
                lemma_obj_lookup_at(json_view_fields(fields@), i as int);
            }
            return Some(&fields[i].1);
        }
        i += 1;
    }
    proof {
        lemma_obj_lookup_none(json_view_fields(fields@), k@);
    }
    None
}

/// The value an object binds to `key`; nothing for other kinds of value.
pub fn json_get<'a>(v: &'a JsonValue, key: &String) -> (r: Option<&'a JsonValue>)
    ensures
        match *v {
            JsonValue::Object(_) => match r {
                Some(w) => obj_lookup(v@->Object_0, key@) == Some(w@),
                None => obj_lookup(v@->Object_0, key@) is None,
            },
            _ => r is None,
        },
{
    match v {
        JsonValue::Object(fields) => obj_get(fields, key),
        _ => None,
    }
}

/// Decides deep structural equality of two values.
pub fn json_eq(a: &JsonValue, b: &JsonValue) -> (r: bool)
    ensures
        r == json_equiv(a@, b@),
    decreases *a,
{
    match (a, b) {
        (JsonValue::Null, JsonValue::Null) => true,
        (JsonValue::Bool(x), JsonValue::Bool(y)) => x == y,
        (JsonValue::Int(x), JsonValue::Int(y)) => x == y,
        (JsonValue::Str(x), JsonValue::Str(y)) => x.eq(y),
        (JsonValue::Array(x), JsonValue::Array(y)) => {
            proof {
                lemma_json_view_seq(x@);
                lemma_json_view_seq(y@);
            }
            if x.len() != y.len() {
                return false;
            }
            let mut i: usize = 0;
            while i < x.len()
                invariant
                    i <= x.len(),
                    x@.len() == y@.len(),
                    *a == JsonValue::Array(*x),
                    *b == JsonValue::Array(*y),
                    json_view_seq(x@).len() == x@.len(),
                    json_view_seq(y@).len() == y@.len(),
                    forall|j: int| 0 <= j < x@.len() ==> #[trigger] json_view_seq(x@)[j]
                        == json_view(x@[j]),
                    forall|j: int| 0 <= j < y@.len() ==> #[trigger] json_view_seq(y@)[j]
                        == json_view(y@[j]),
                    forall|j: int| 0 <= j < i ==> json_equiv(
                        #[trigger] json_view_seq(x@)[j],
                        json_view_seq(y@)[j],
                    ),
                decreases x.len() - i,
            {
                proof {
                    assert(decreases_to!(*a => (*a)->Array_0));
                    assert((*a)->Array_0 == *x);
                    assert(decreases_to!(*x => x@));
                    assert(decreases_to!(x@ => x@[i as int]));
                }
                if !json_eq(&x[i], &y[i]) {
                    assert(!json_equiv(json_view_seq(x@)[i as int], json_view_seq(y@)[i as int]));
                    return false;
                }
                i += 1;
            }
            true
        },
        (JsonValue::Object(x), JsonValue::Object(y)) => {
            proof {
                lemma_json_view_fields(x@);
                lemma_json_view_fields(y@);
            }
            if x.len() != y.len() {
                return false;
            }
            let mut i: usize = 0;
            while i < x.len()
                invariant
                    i <= x.len(),
                    x@.len() == y@.len(),
                    *a == JsonValue::Object(*x),
                    *b == JsonValue::Object(*y),
                    json_view_fields(x@).len() == x@.len(),
                    json_view_fields(y@).len() == y@.len(),
                    forall|j: int| 0 <= j < x@.len() ==> #[trigger] json_view_fields(x@)[j] == (
                        x@[j].0@,
                        json_view(x@[j].1),
                    ),
                    forall|j: int| 0 <= j < y@.len() ==> #[trigger] json_view_fields(y@)[j] == (
                        y@[j].0@,
                        json_view(y@[j].1),
                    ),
                    forall|j: int| 0 <= j < i ==> obj_entry_equiv(
                        json_view_fields(y@),
                        (#[trigger] json_view_fields(x@)[j]).0,
                        json_view_fields(x@)[j].1,
                    ),
                decreases x.len() - i,
            {
                match obj_get(y, &x[i].0) {
                    Some(w) => {
                        proof {
                            assert(decreases_to!(*a => (*a)->Object_0));
                            assert((*a)->Object_0 == *x);
                            assert(decreases_to!(*x => x@));
                            assert(decreases_to!(x@ => x@[i as int]));
                            assert(decreases_to!(x@[i as int] => x@[i as int].1));
                        }
                        if !json_eq(&x[i].1, w) {
                            assert(!obj_entry_equiv(
                                json_view_fields(y@),
                                json_view_fields(x@)[i as int].0,
                                json_view_fields(x@)[i as int].1,
                            ));
                            return false;
                        }
                    },
                    None => {
                        assert(!obj_entry_equiv(
                            json_view_fields(y@),
                            json_view_fields(x@)[i as int].0,
                            json_view_fields(x@)[i as int].1,
                        ));
                        return false;
                    },
                }
                i += 1;
            }
            true
        },
        _ => {
            false
        },
    }
}

/// Deep copy; the copy has the same view.
pub fn json_clone(v: &JsonValue) -> (res: JsonValue)
    ensures
        res@ == v@,
    decreases *v,
{
    match v {
        JsonValue::Null => JsonValue::Null,
        JsonValue::Bool(b) => JsonValue::Bool(*b),
        JsonValue::Int(n) => JsonValue::Int(*n),
        JsonValue::Str(s) => JsonValue::Str(s.clone()),
        JsonValue::Array(items) => {
            let mut out: Vec<JsonValue> = Vec::new();
            let mut i: usize = 0;
            while i < items.len()
                invariant
                    i <= items.len(),
                    out@.len() == i,
                    *v == JsonValue::Array(*items),
                    forall|j: int| 0 <= j < i ==> json_view(#[trigger] out@[j]) == json_view(
                        items@[j],
                    ),
                decreases items.len() - i,
            {
                proof {
                    assert(decreases_to!(*v => (*v)->Array_0));
                    assert((*v)->Array_0 == *items);
                    assert(decreases_to!(*items => items@));
                    assert(decreases_to!(items@ => items@[i as int]));
                }
                let c = json_clone(&items[i]);
                out.push(c);
                i += 1;
            }
            proof {
                lemma_json_view_seq(out@);
                lemma_json_view_seq(items@);
                assert(json_view_seq(out@) =~= json_view_seq(items@));
            }
            JsonValue::Array(out)
        },
        JsonValue::Object(fields) => {
            let mut out: Vec<(String, JsonValue)> = Vec::new();
            let mut i: usize = 0;
            while i < fields.len()
                invariant
                    i <= fields.len(),
                    out@.len() == i,
                    *v == JsonValue::Object(*fields),
                    forall|j: int| 0 <= j < i ==> (#[trigger] out@[j]).0@ == fields@[j].0@
                        && json_view(out@[j].1) == json_view(fields@[j].1),
                decreases fields.len() - i,
            {
                proof {
                    assert(decreases_to!(*v => (*v)->Object_0));
                    assert((*v)->Object_0 == *fields);
                    assert(decreases_to!(*fields => fields@));
                    assert(decreases_to!(fields@ => fields@[i as int]));
                    assert(decreases_to!(fields@[i as int] => fields@[i as int].1));
                }
                let key = fields[i].0.clone();
                let val = json_clone(&fields[i].1);
                out.push((key, val));
                i += 1;
            }
            proof {
                lemma_json_view_fields(out@);
                lemma_json_view_fields(fields@);
                assert(json_view_fields(out@) =~= json_view_fields(fields@));
            }
            JsonValue::Object(out)
        },
    }
}

impl Clone for JsonValue {
    /// Deep copy; the clone has the same view.
    fn clone(&self) -> (res: Self)
        ensures
            res@ == self@,
    {
        json_clone(self)
    }
}

/// Decides well-formedness: within any one object the keys are distinct.
pub fn json_wf(v: &JsonValue) -> (r: bool)
    ensures
        r == wf_json(v@),
    decreases *v,
{
    match v {
        JsonValue::Null => true,
        JsonValue::Bool(_) => true,
        JsonValue::Int(_) => true,
        JsonValue::Str(_) => true,
        JsonValue::Array(items) => {
            proof {
                lemma_json_view_seq(items@);
            }
            let mut i: usize = 0;
            while i < items.len()
                invariant
                    i <= items.len(),
                    *v == JsonValue::Array(*items),
                    json_view_seq(items@).len() == items@.len(),
                    forall|j: int| 0 <= j < items@.len() ==> #[trigger] json_view_seq(items@)[j]
                        == json_view(items@[j]),
                    forall|j: int| 0 <= j < i ==> wf_json(#[trigger] json_view_seq(items@)[j]),
                decreases items.len() - i,
            {
                proof {
                    assert(decreases_to!(*v => (*v)->Array_0));
                    assert((*v)->Array_0 == *items);
                    assert(decreases_to!(*items => items@));
                    assert(decreases_to!(items@ => items@[i as int]));
                }
                if !json_wf(&items[i]) {
                    proof {
                        let ghost x = json_view_seq(items@);
                        assert(!wf_json(x[i as int]));
                        lemma_wf_json_seq_index(x);
                        assert(!wf_json(JsonView::Array(x)));
                        assert(v@ == JsonView::Array(x));
                    }
                    return false;
                }
                i += 1;
            }
            proof {
                lemma_wf_json_seq_index(json_view_seq(items@));
            }
            true
        },
        JsonValue::Object(fields) => {
            proof {
                lemma_json_view_fields(fields@);
            }
            let mut i: usize = 0;
            while i < fields.len()
                invariant
                    i <= fields.len(),
                    *v == JsonValue::Object(*fields),
                    json_view_fields(fields@).len() == fields@.len(),
                    forall|j: int| 0 <= j < fields@.len() ==> #[trigger] json_view_fields(
                        fields@,
                    )[j] == (fields@[j].0@, json_view(fields@[j].1)),
                    forall|j: int, k: int| 0 <= j < k < i ==> (#[trigger] json_view_fields(
                        fields@,
                    )[j]).0 != (#[trigger] json_view_fields(fields@)[k]).0,
                    forall|j: int| 0 <= j < i ==> wf_json(
                        (#[trigger] json_view_fields(fields@)[j]).1,
                    ),
                decreases fields.len() - i,
            {
                let mut j: usize = 0;
                while j < i
                    invariant
                        j <= i < fields@.len(),
                        *v == JsonValue::Object(*fields),
                        json_view_fields(fields@).len() == fields@.len(),
                        forall|k: int| 0 <= k < fields@.len() ==> #[trigger] json_view_fields(
                            fields@,
                        )[k] == (fields@[k].0@, json_view(fields@[k].1)),
                        forall|k: int| 0 <= k < j ==> (#[trigger] json_view_fields(fields@)[k]).0
                            != json_view_fields(fields@)[i as int].0,
                    decreases i - j,
                {
                    if fields[j].0.eq(&fields[i].0) {
                        proof {
                            let ghost x = json_view_fields(fields@);
                            assert(x[j as int].0 == x[i as int].0);
                            assert(!distinct_keys(x));
                            assert(!wf_json(JsonView::Object(x)));
                            assert(v@ == JsonView::Object(x));
                        }
                        return false;
                    }
                    j += 1;
                }
                proof {
                    assert(decreases_to!(*v => (*v)->Object_0));
                    assert((*v)->Object_0 == *fields);
                    assert(decreases_to!(*fields => fields@));
                    assert(decreases_to!(fields@ => fields@[i as int]));
                    assert(decreases_to!(fields@[i as int] => fields@[i as int].1));
                }
                if !json_wf(&fields[i].1) {
                    proof {
                        let ghost x = json_view_fields(fields@);
                        assert(!wf_json(x[i as int].1));
                        lemma_wf_json_entries_index(x);
                        assert(!wf_json(JsonView::Object(x)));
                        assert(v@ == JsonView::Object(x));
                    }
                    return false;
                }
                i += 1;
            }
            proof {
                lemma_wf_json_entries_index(json_view_fields(fields@));
            }
            true
        },
    }
}

} // verus!
