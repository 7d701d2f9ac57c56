//! Three-part resource identifiers.
//!
//! A urn is `namespace::kind::instance-id`: exactly three segments joined by
//! the two-character separator `::`.  It is the unique key of a resource
//! within one desired-state document.  A malformed urn is a fatal
//! [`ResourceError`], never a silent skip.

use vstd::prelude::*;

use crate::errors::ResourceError;

verus! {

/// One parsed resource identifier.
pub struct Urn {
    pub namespace: String,
    pub kind: String,
    pub instance: String,
}

/// The separator `::` starts at position `i` of `s`.
pub open spec fn sep_at(s: Seq<char>, i: int) -> bool {
    &&& 0 <= i
    &&& i + 2 <= s.len()
    &&& s[i] == ':'
    &&& s[i + 1] == ':'
}

/// No separator starts anywhere in `s`.
pub open spec fn sep_free(s: Seq<char>) -> bool {
    forall|i: int| !sep_at(s, i)
}

/// `s` splits as `ns::kind::inst` the way a leftmost-first scan splits it:
/// each separator is the first one at or after the end of the previous
/// segment, and the last segment holds no further separator.
pub open spec fn urn_splits_into(s: Seq<char>, ns: Seq<char>, kind: Seq<char>, inst: Seq<char>) -> bool {
    &&& s == ns + seq![':', ':'] + kind + seq![':', ':'] + inst
    &&& (forall|i: int| 0 <= i < ns.len() ==> !sep_at(s, i))
    &&& (forall|i: int| ns.len() + 2 <= i < ns.len() + 2 + kind.len() ==> !sep_at(s, i))
    &&& sep_free(inst)
}

/// A well-formed urn text: it has a three-way split.
pub open spec fn is_valid_urn(s: Seq<char>) -> bool {
    exists|ns: Seq<char>, kind: Seq<char>, inst: Seq<char>| urn_splits_into(s, ns, kind, inst)
}

/// First position at or after `from` where a separator starts, scanning left
/// to right.
fn find_sep(s: &str, from: usize) -> (r: Option<usize>)
    requires
        from <= s@.len(),
    ensures
        r matches Some(i) ==> {
            &&& from <= i
            &&& sep_at(s@, i as int)
            &&& forall|j: int| from <= j < i ==> !sep_at(s@, j)
        },
        r is None ==> forall|j: int| from <= j ==> !sep_at(s@, j),
{
    let len = s.unicode_len();
    let mut i = from;
    while i < len && i + 1 < len
        invariant
            from <= i <= len,
            len == s@.len(),
            from <= s@.len(),
            forall|j: int| from <= j < i ==> !sep_at(s@, j),
        decreases len - i,
    {
        if s.get_char(i) == ':' && s.get_char(i + 1) == ':' {
            return Some(i);
        }
        i += 1;
    }
    None
}

/// Parses a three-part urn, splitting on `::` leftmost-first.  A text with
/// more or fewer than three segments is rejected as [`ResourceError::InvalidUrn`].
pub fn parse_urn(s: &str) -> (r: Result<Urn, ResourceError>)
    ensures
        r matches Ok(u) ==> urn_splits_into(s@, u.namespace@, u.kind@, u.instance@),
        r is Err ==> (r matches Err(ResourceError::InvalidUrn)) && !is_valid_urn(s@),
        is_valid_urn(s@) <==> r is Ok,
{
    let len = s.unicode_len();
    let first = match find_sep(s, 0) {
        Some(i) => i,
        None => {
            proof {
                lemma_no_first_sep_invalid(s@);
            }
            return Err(ResourceError::InvalidUrn);
        },
    };
    let second = match find_sep(s, first + 2) {
        Some(j) => j,
        None => {
            proof {
                lemma_no_second_sep_invalid(s@, first as int);
            }
            return Err(ResourceError::InvalidUrn);
        },
    };
    match find_sep(s, second + 2) {
        Some(_) => {
            proof {
                lemma_third_sep_invalid(s@, first as int, second as int);
            }
            Err(ResourceError::InvalidUrn)
        },
        None => {
            let namespace = s.substring_char(0, first).to_owned();
            let kind = s.substring_char(first + 2, second).to_owned();
            let instance = s.substring_char(second + 2, len).to_owned();
            proof {
                let ns = namespace@;
                let kd = kind@;
                let inst = instance@;
                assert(s@ =~= ns + seq![':', ':'] + kd + seq![':', ':'] + inst);
                assert(sep_free(inst)) by {
                    assert forall|i: int| !sep_at(inst, i) by {
                        if sep_at(inst, i) {
                            assert(sep_at(s@, second + 2 + i));
                        }
                    }
                }
                assert(urn_splits_into(s@, ns, kd, inst));
            }
            Ok(Urn { namespace, kind, instance })
        },
    }
}

/// The canonical three-way split of a valid urn.
pub open spec fn urn_split(s: Seq<char>) -> (Seq<char>, Seq<char>, Seq<char>) {
    choose|t: (Seq<char>, Seq<char>, Seq<char>)| urn_splits_into(s, t.0, t.1, t.2)
}

/// A valid urn splits as its canonical split says.
pub proof fn lemma_urn_split(s: Seq<char>)
    requires
        is_valid_urn(s),
    ensures
        urn_splits_into(s, urn_split(s).0, urn_split(s).1, urn_split(s).2),
{
    let (ns, k, i) = choose|ns: Seq<char>, k: Seq<char>, i: Seq<char>| urn_splits_into(s, ns, k, i);
    let t = (ns, k, i);
    assert(urn_splits_into(s, t.0, t.1, t.2));
    assert(exists|t: (Seq<char>, Seq<char>, Seq<char>)| urn_splits_into(s, t.0, t.1, t.2));
}

/// A urn splits one way only: leftmost-first scanning pins each separator.
pub proof fn lemma_split_unique(
    s: Seq<char>,
    ns1: Seq<char>,
    k1: Seq<char>,
    i1: Seq<char>,
    ns2: Seq<char>,
    k2: Seq<char>,
    i2: Seq<char>,
)
    requires
        urn_splits_into(s, ns1, k1, i1),
        urn_splits_into(s, ns2, k2, i2),
    ensures
        ns1 == ns2,
        k1 == k2,
        i1 == i2,
{
    let n1 = ns1.len() as int;
    let n2 = ns2.len() as int;
    assert(sep_at(s, n1));
    assert(sep_at(s, n2));
    assert(n1 == n2) by {
        if n1 < n2 {
            assert(!sep_at(s, n1));
        } else if n2 < n1 {
            assert(!sep_at(s, n2));
        }
    }
    assert(ns1 =~= ns2) by {
        assert forall|j: int| 0 <= j < n1 implies ns1[j] == ns2[j] by {
            assert(s[j] == ns1[j]);
            assert(s[j] == ns2[j]);
        }
    }
    let m1 = n1 + 2 + k1.len();
    let m2 = n2 + 2 + k2.len();
    assert(sep_at(s, m1)) by {
        assert(s[m1] == ':');
        assert(s[m1 + 1] == ':');
    }
    assert(sep_at(s, m2));
    assert(m1 == m2) by {
        if m1 < m2 {
            assert(!sep_at(s, m1));
        } else if m2 < m1 {
            assert(!sep_at(s, m2));
        }
    }
    assert(k1 =~= k2) by {
        assert forall|j: int| 0 <= j < k1.len() implies k1[j] == k2[j] by {
            assert(s[n1 + 2 + j] == k1[j]);
            assert(s[n2 + 2 + j] == k2[j]);
        }
    }
    assert(i1 =~= i2) by {
        assert(s.len() == m1 + 2 + i1.len());
        assert(s.len() == m2 + 2 + i2.len());
        assert forall|j: int| 0 <= j < i1.len() implies i1[j] == i2[j] by {
            assert(s[m1 + 2 + j] == i1[j]);
            assert(s[m2 + 2 + j] == i2[j]);
        }
    }
}

/// Any split puts its first separator somewhere: a text with no separator at
/// all is no urn.
proof fn lemma_no_first_sep_invalid(s: Seq<char>)
    requires
        forall|j: int| 0 <= j ==> !sep_at(s, j),
    ensures
        !is_valid_urn(s),
{
    assert forall|ns: Seq<char>, kind: Seq<char>, inst: Seq<char>| !urn_splits_into(
        s,
        ns,
        kind,
        inst,
    ) by {
        if urn_splits_into(s, ns, kind, inst) {
            assert(sep_at(s, ns.len() as int));
        }
    }
}

/// If the leftmost separator sits at `first` and nothing after `first + 2`
/// separates again, the text has at most two segments.
proof fn lemma_no_second_sep_invalid(s: Seq<char>, first: int)
    requires
        sep_at(s, first),
        forall|j: int| 0 <= j < first ==> !sep_at(s, j),
        forall|j: int| first + 2 <= j ==> !sep_at(s, j),
    ensures
        !is_valid_urn(s),
{
    assert forall|ns: Seq<char>, kind: Seq<char>, inst: Seq<char>| !urn_splits_into(
        s,
        ns,
        kind,
        inst,
    ) by {
        if urn_splits_into(s, ns, kind, inst) {
            let n = ns.len() as int;
            assert(sep_at(s, n));
            assert(n == first) by {
                if n < first {
                    assert(!sep_at(s, n));
                } else if n > first {
                    assert(!sep_at(s, first));
                }
            }
            assert(sep_at(s, n + 2 + kind.len()));
        }
    }
}

/// A third separator after the second segment means more than three
/// segments.
proof fn lemma_third_sep_invalid(s: Seq<char>, first: int, second: int)
    requires
        sep_at(s, first),
        forall|j: int| 0 <= j < first ==> !sep_at(s, j),
        sep_at(s, second),
        first + 2 <= second,
        forall|j: int| first + 2 <= j < second ==> !sep_at(s, j),
        exists|j: int| second + 2 <= j && sep_at(s, j),
    ensures
        !is_valid_urn(s),
{
    assert forall|ns: Seq<char>, kind: Seq<char>, inst: Seq<char>| !urn_splits_into(
        s,
        ns,
        kind,
        inst,
    ) by {
        if urn_splits_into(s, ns, kind, inst) {
            let n = ns.len() as int;
            assert(sep_at(s, n));
            assert(n == first) by {
                if n < first {
                    assert(!sep_at(s, n));
                } else if n > first {
                    assert(!sep_at(s, first));
                }
            }
            let m = n + 2 + kind.len();
            assert(sep_at(s, m));
            assert(m == second) by {
                if m < second {
                    assert(!sep_at(s, m));
                } else if m > second {
                    assert(!sep_at(s, second));
                }
            }
            let j = choose|j: int| second + 2 <= j && sep_at(s, j);
            assert(sep_at(inst, j - (second + 2)));
        }
    }
}

} // verus!
