//! As-of-version resolution over the stored records of one identifier.
use vstd::prelude::*;
use vstd::slice::slice_to_vec;

use crate::entry::{decode_entry, VersionEntry};
use crate::error::Error;
use crate::version::{le_word, VersionId};

verus! {

/// The byte views of a list of stored records.
pub open spec fn raw_view(values: Seq<Vec<u8>>) -> Seq<Seq<u8>> {
    values.map_values(|v: Vec<u8>| v@)
}

/// The ordinal of the version a well-formed record carries.
pub open spec fn stored_ordinal(b: Seq<u8>) -> u32 {
    VersionId(le_word(b)).ordinal()
}

/// Whether the record is visible as of `q`: its ordinal does not exceed `q`'s.
pub open spec fn visible(b: Seq<u8>, q: VersionId) -> bool {
    stored_ordinal(b) <= q.ordinal()
}

/// Every record decodes.
pub open spec fn all_decode(vs: Seq<Seq<u8>>) -> bool {
    forall|j: int| 0 <= j < vs.len() ==> (#[trigger] decode_entry(vs[j])) is Some
}

/// `i` is the first record that does not decode.
pub open spec fn first_malformed(vs: Seq<Seq<u8>>, i: int) -> bool {
    &&& 0 <= i < vs.len()
    &&& decode_entry(vs[i]) is None
    &&& forall|j: int| 0 <= j < i ==> (#[trigger] decode_entry(vs[j])) is Some
}

/// `i` holds the entry in effect as of `q`: it is visible, no visible record has a
/// greater ordinal, and no later visible record has an equal one.
pub open spec fn is_as_of_index(vs: Seq<Seq<u8>>, q: VersionId, i: int) -> bool {
    &&& 0 <= i < vs.len()
    &&& visible(vs[i], q)
    &&& forall|j: int|
        0 <= j < vs.len() && #[trigger] visible(vs[j], q) ==> stored_ordinal(vs[j])
            <= stored_ordinal(vs[i])
    &&& forall|j: int|
        i < j < vs.len() && #[trigger] visible(vs[j], q) ==> stored_ordinal(vs[j])
            < stored_ordinal(vs[i])
}

/// The entry in effect as of `q` among well-formed records, if any is visible.
pub open spec fn as_of_entry(vs: Seq<Seq<u8>>, q: VersionId) -> Option<(VersionId, Seq<char>)> {
    if exists|i: int| is_as_of_index(vs, q, i) {
        decode_entry(vs[choose|i: int| is_as_of_index(vs, q, i)])
    } else {
        None
    }
}

/// At most one record is the one in effect as of a given version.
pub proof fn lemma_as_of_index_unique(vs: Seq<Seq<u8>>, q: VersionId, i: int, k: int)
    requires
        is_as_of_index(vs, q, i),
        is_as_of_index(vs, q, k),
    ensures
        i == k,
{
    if i < k {
        assert(visible(vs[k], q));
    } else if k < i {
        assert(visible(vs[i], q));
    }
}

/// Finds the entry in effect as of `version` among the stored records of `key`:
/// the greatest ordinal not above `version`'s, the flag playing no part, the
/// later record winning a tie. Fails on the first record that does not decode.
pub fn find_last_entry(key: &str, values: &Vec<Vec<u8>>, version: VersionId) -> (r: Result<
    Option<VersionEntry>,
    Error,
>)
    ensures
        r is Err <==> !all_decode(raw_view(values@)),
        match r {
            Err(e) => exists|i: int|
                first_malformed(raw_view(values@), i) && (e matches Error::MalformedEntry {
                    key: k,
                    bytes: b,
                } && k@ == key@ && b@ == values@[i]@),
            Ok(None) => as_of_entry(raw_view(values@), version) is None,
            Ok(Some(e)) => as_of_entry(raw_view(values@), version) == Some(e@),
        },
{
    let ghost vs = raw_view(values@);
    let ghost mut bi: int = 0;
    let mut best: Option<VersionEntry> = None;
    let mut i: usize = 0;
    while i < values.len()
        invariant
            i <= values@.len(),
            vs == raw_view(values@),
            forall|j: int| 0 <= j < i ==> (#[trigger] decode_entry(vs[j])) is Some,
            best is None ==> forall|j: int| 0 <= j < i ==> !#[trigger] visible(vs[j], version),
            best matches Some(b) ==> {
                &&& 0 <= bi < i
                &&& decode_entry(vs[bi]) == Some(b@)
                &&& visible(vs[bi], version)
                &&& forall|j: int|
                    0 <= j < i && #[trigger] visible(vs[j], version) ==> stored_ordinal(vs[j])
                        <= stored_ordinal(vs[bi])
                &&& forall|j: int|
                    bi < j < i && #[trigger] visible(vs[j], version) ==> stored_ordinal(vs[j])
                        < stored_ordinal(vs[bi])
            },
        decreases values@.len() - i,
    {
        let e = match VersionEntry::from_bytes(values[i].as_slice()) {
            Some(e) => e,
            None => {
                assert(first_malformed(vs, i as int));
                return Err(Error::MalformedEntry {
                    key: key.to_owned(),
                    bytes: slice_to_vec(values[i].as_slice()),
                });
            },
        };
        let ord = e.id.value();
        if ord <= version.value() {
            let replace = match &best {
                None => true,
                Some(b) => b.id.value() <= ord,
            };
            if replace {
                proof {
                    bi = i as int;
                }
                best = Some(e);
            }
        }
        i = i + 1;
    }
    proof {
        if best is Some {
                assert(is_as_of_index(vs, version, bi));
                let c = choose|k: int| is_as_of_index(vs, version, k);
                lemma_as_of_index_unique(vs, version, bi, c);
        } else {
                if exists|k: int| is_as_of_index(vs, version, k) {
                    let c = choose|k: int| is_as_of_index(vs, version, k);
                    assert(visible(vs[c], version));
                }
        }
    }
    Ok(best)
}

} // verus!
