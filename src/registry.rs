//! The known-version registry: the versions imported so far, kept in
//! ordinal order.
use vstd::prelude::*;

use vstd::slice::slice_to_vec;

use crate::error::Error;
use crate::lookup::raw_view;
use crate::version::{le_word, VersionId};

verus! {

/// The list is in non-decreasing ordinal order.
pub open spec fn sorted_by_ordinal(s: Seq<VersionId>) -> bool {
    forall|i: int, j: int| 0 <= i < j < s.len() ==> s[i].ordinal() <= s[j].ordinal()
}

/// `p` is where `v` goes in `s`: after every version of ordinal up to `v`'s,
/// before every greater one.
pub open spec fn insertion_point(s: Seq<VersionId>, v: VersionId, p: int) -> bool {
    &&& 0 <= p <= s.len()
    &&& forall|j: int| 0 <= j < p ==> (#[trigger] s[j]).ordinal() <= v.ordinal()
    &&& forall|j: int| p <= j < s.len() ==> (#[trigger] s[j]).ordinal() > v.ordinal()
}

/// `s` with `v` registered at its place in ordinal order.
pub open spec fn with_version(s: Seq<VersionId>, v: VersionId) -> Seq<VersionId> {
    s.insert(choose|p: int| insertion_point(s, v, p), v)
}

/// A sorted list has exactly one place for each version.
pub proof fn lemma_insertion_point_unique(s: Seq<VersionId>, v: VersionId, p: int, q: int)
    requires
        insertion_point(s, v, p),
        insertion_point(s, v, q),
    ensures
        p == q,
{
    if p < q {
        assert(s[p].ordinal() > v.ordinal());
    } else if q < p {
        assert(s[q].ordinal() > v.ordinal());
    }
}

/// A registered version is known, and the list stays in ordinal order.
pub proof fn lemma_with_version(s: Seq<VersionId>, v: VersionId, p: int)
    requires
        sorted_by_ordinal(s),
        insertion_point(s, v, p),
    ensures
        with_version(s, v) == s.insert(p, v),
        with_version(s, v).contains(v),
        sorted_by_ordinal(with_version(s, v)),
        with_version(s, v).len() == s.len() + 1,
        forall|w: VersionId| #[trigger]
            with_version(s, v).contains(w) <==> (s.contains(w) || w == v),
{
    let c = choose|k: int| insertion_point(s, v, k);
    lemma_insertion_point_unique(s, v, p, c);
    let t = s.insert(p, v);
    assert(t[p] == v);
    assert forall|i: int, j: int| 0 <= i < j < t.len() implies t[i].ordinal() <= t[j].ordinal() by {
        if j < p {
            assert(t[i] == s[i] && t[j] == s[j]);
        } else if j == p {
            assert(t[i] == s[i]);
        } else if i < p {
            assert(t[i] == s[i] && t[j] == s[j - 1]);
        } else if i == p {
            assert(t[j] == s[j - 1]);
        } else {
            assert(t[i] == s[i - 1] && t[j] == s[j - 1]);
        }
    }
    assert forall|w: VersionId| #[trigger] t.contains(w) implies (s.contains(w) || w == v) by {
        let k = choose|k: int| 0 <= k < t.len() && t[k] == w;
        if k < p {
            assert(s[k] == w);
        } else if k > p {
            assert(s[k - 1] == w);
        }
    }
    assert forall|w: VersionId| s.contains(w) implies #[trigger] t.contains(w) by {
        let k = choose|k: int| 0 <= k < s.len() && s[k] == w;
        if k < p {
            assert(t[k] == w);
        } else {
            assert(t[k + 1] == w);
        }
    }
}

/// Every sorted list has a place for every version.
pub proof fn lemma_insertion_point_exists(s: Seq<VersionId>, v: VersionId) -> (p: int)
    requires
        sorted_by_ordinal(s),
    ensures
        insertion_point(s, v, p),
    decreases s.len(),
{
    if s.len() == 0 {
        0
    } else {
        let init = s.drop_last();
        assert(sorted_by_ordinal(init));
        let q = lemma_insertion_point_exists(init, v);
        if s.last().ordinal() > v.ordinal() {
            assert(forall|j: int| 0 <= j < init.len() ==> init[j] == s[j]);
            q
        } else {
            assert forall|j: int| 0 <= j < s.len() implies (#[trigger] s[j]).ordinal()
                <= v.ordinal() by {
                assert(s[j].ordinal() <= s[s.len() - 1].ordinal() || j == s.len() - 1);
            }
            s.len() as int
        }
    }
}

/// Whether `v` is in `list`, flag included.
pub fn contains_version(list: &Vec<VersionId>, v: VersionId) -> (r: bool)
    ensures
        r == list@.contains(v),
{
    let mut i: usize = 0;
    while i < list.len()
        invariant
            i <= list@.len(),
            forall|j: int| 0 <= j < i ==> list@[j] != v,
        decreases list@.len() - i,
    {
        if list[i] == v {
            return true;
        }
        i = i + 1;
    }
    false
}

/// Registers `v` in a list kept in ordinal order, after every version of
/// equal ordinal.
pub fn insert_version(list: &mut Vec<VersionId>, v: VersionId)
    requires
        sorted_by_ordinal(old(list)@),
    ensures
        final(list)@ == with_version(old(list)@, v),
        sorted_by_ordinal(final(list)@),
        final(list)@.contains(v),
{
    let mut i: usize = 0;
    while i < list.len() && list[i].value() <= v.value()
        invariant
            i <= list@.len(),
            forall|j: int| 0 <= j < i ==> (#[trigger] list@[j]).ordinal() <= v.ordinal(),
        decreases list@.len() - i,
    {
        i = i + 1;
    }
    proof {
        assert forall|j: int| i <= j < list@.len() implies (#[trigger] list@[j]).ordinal()
            > v.ordinal() by {
            assert(list@[i as int].ordinal() <= list@[j].ordinal());
        }
        assert(insertion_point(list@, v, i as int));
        lemma_with_version(list@, v, i as int);
    }
    list.insert(i, v);
}

/// The registry that the stored version records `vs` describe, in ordinal
/// order, later records after earlier ones of equal ordinal.
pub open spec fn registry_of(vs: Seq<Seq<u8>>) -> Seq<VersionId>
    decreases vs.len(),
{
    if vs.len() == 0 {
        Seq::empty()
    } else {
        with_version(registry_of(vs.drop_last()), VersionId(le_word(vs.last())))
    }
}

/// Decodes the stored version records of the registry key `key` into the
/// registry in ordinal order. Fails on the first record shorter than four
/// bytes.
pub fn versions_from_records(key: &str, values: &Vec<Vec<u8>>) -> (r: Result<Vec<VersionId>, Error>)
    ensures
        r is Err <==> exists|i: int| 0 <= i < values@.len() && (#[trigger] values@[i])@.len() < 4,
        match r {
            Ok(list) => list@ == registry_of(raw_view(values@)) && sorted_by_ordinal(list@),
            Err(e) => exists|i: int|
                0 <= i < values@.len() && values@[i]@.len() < 4 && (forall|j: int|
                    0 <= j < i ==> (#[trigger] values@[j])@.len() >= 4) && (e matches Error::MalformedEntry {
                    key: k,
                    bytes: b,
                } && k@ == key@ && b@ == values@[i]@),
        },
{
    let ghost vs = raw_view(values@);
    let mut list: Vec<VersionId> = Vec::new();
    let mut i: usize = 0;
    while i < values.len()
        invariant
            i <= values@.len(),
            vs == raw_view(values@),
            forall|j: int| 0 <= j < i ==> (#[trigger] values@[j])@.len() >= 4,
            list@ == registry_of(vs.take(i as int)),
            sorted_by_ordinal(list@),
        decreases values@.len() - i,
    {
        proof {
            assert(vs.take(i + 1).drop_last() =~= vs.take(i as int));
        }
        match VersionId::from_bytes(values[i].as_slice()) {
            Some(v) => {
                insert_version(&mut list, v);
            },
            None => {
                return Err(Error::MalformedEntry {
                    key: key.to_owned(),
                    bytes: slice_to_vec(values[i].as_slice()),
                });
            },
        }
        i = i + 1;
    }
    assert(vs.take(i as int) =~= vs);
    Ok(list)
}

} // verus!
