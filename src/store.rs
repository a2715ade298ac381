//! An in-memory duplicate-key store: the mapping entries of every identifier
//! and the known-version registry, with versioned insert-with-dedup, as-of
//! lookup and all-or-nothing import of one version's batch.
use vstd::prelude::*;
use vstd::slice::slice_to_vec;

use crate::entry::{encode_entry, McpRecord, VersionEntry};
use crate::error::Error;
use crate::lookup::{all_decode, as_of_entry, find_last_entry, first_malformed, raw_view};
use crate::lookup::{is_as_of_index, lemma_as_of_index_unique, visible};
use crate::registry::{
    contains_version, insert_version, lemma_insertion_point_exists, lemma_with_version,
    sorted_by_ordinal, with_version,
};
use crate::version::VersionId;

verus! {

/// The store's record log: each identifier with one stored entry, oldest first.
pub type Log = Seq<(Seq<char>, Seq<u8>)>;

/// The stored records of identifier `k`, oldest first.
pub open spec fn values_for(log: Log, k: Seq<char>) -> Seq<Seq<u8>>
    decreases log.len(),
{
    if log.len() == 0 {
        Seq::empty()
    } else {
        let rest = values_for(log.drop_last(), k);
        if log.last().0 == k {
            rest.push(log.last().1)
        } else {
            rest
        }
    }
}

/// What inserting `name` at version `v` does to an identifier whose stored
/// records are `vs`: `None` when it fails (a record does not decode, or the
/// exact record is already there), `Some(None)` when the entry in effect as of
/// `v` already carries `name`, `Some(Some(b))` when record `b` is written.
pub open spec fn write_for(vs: Seq<Seq<u8>>, v: VersionId, name: Seq<char>) -> Option<
    Option<Seq<u8>>,
> {
    if !all_decode(vs) {
        None
    } else if as_of_entry(vs, v) matches Some(e) && e.1 == name {
        Some(None)
    } else if vs.contains(encode_entry(v, name)) {
        None
    } else {
        Some(Some(encode_entry(v, name)))
    }
}

/// The log after inserting `name` for `k` at version `v`, or `None` when the
/// insert fails.
pub open spec fn insert_result(log: Log, k: Seq<char>, v: VersionId, name: Seq<char>) -> Option<
    Log,
> {
    match write_for(values_for(log, k), v, name) {
        None => None,
        Some(None) => Some(log),
        Some(Some(b)) => Some(log.push((k, b))),
    }
}

/// `e` is the error a failed write over the records `vs` of identifier `k`
/// reports.
pub open spec fn write_error(vs: Seq<Seq<u8>>, k: Seq<char>, e: Error) -> bool {
    if !all_decode(vs) {
        exists|i: int|
            first_malformed(vs, i) && (e matches Error::MalformedEntry { key, bytes } && key@ == k
                && bytes@ == vs[i])
    } else {
        e is DuplicateEntry
    }
}

/// Decides what inserting `name` for `key` at `version` writes, given the
/// stored records `values` of `key`: nothing when the entry in effect as of
/// `version` already carries `name`, otherwise the encoded entry. Fails when a
/// record does not decode, or when the exact record is already stored.
pub fn plan_insert(key: &str, values: &Vec<Vec<u8>>, version: VersionId, name: &str) -> (r: Result<
    Option<Vec<u8>>,
    Error,
>)
    ensures
        match r {
            Ok(None) => write_for(raw_view(values@), version, name@) == Some(None::<Seq<u8>>),
            Ok(Some(b)) => write_for(raw_view(values@), version, name@) == Some(Some(b@)),
            Err(e) => write_for(raw_view(values@), version, name@) is None && write_error(
                raw_view(values@),
                key@,
                e,
            ),
        },
{
    let ghost vs = raw_view(values@);
    let n = name.to_owned();
    match find_last_entry(key, values, version) {
        Err(e) => {
            return Err(e);
        },
        Ok(Some(last)) => {
            if last.name == n {
                return Ok(None);
            }
        },
        Ok(None) => {},
    }
    let bytes = VersionEntry { id: version, name: n }.write_bytes();
    let mut i: usize = 0;
    while i < values.len()
        invariant
            i <= values@.len(),
            raw_view(values@) == vs,
            bytes@ == encode_entry(version, name@),
            forall|j: int| 0 <= j < i ==> vs[j] != bytes@,
            all_decode(vs),
            !(as_of_entry(vs, version) matches Some(e) && e.1 == name@),
        decreases values@.len() - i,
    {
        if same_bytes(&values[i], &bytes) {
            assert(vs[i as int] == bytes@);
            assert(vs.contains(encode_entry(version, name@)));
            return Err(Error::DuplicateEntry);
        }
        i = i + 1;
    }
    Ok(Some(bytes))
}

/// `e` is the error a failed insert of `name` for `k` at `v` reports.
pub open spec fn insert_error(log: Log, k: Seq<char>, v: VersionId, name: Seq<char>, e: Error) -> bool {
    write_error(values_for(log, k), k, e)
}

/// The log after inserting the records of `recs` in order at version `v`;
/// `None` when a row is malformed or an insert fails.
pub open spec fn import_result(log: Log, v: VersionId, recs: Seq<Option<McpRecord>>) -> Option<Log>
    decreases recs.len(),
{
    if recs.len() == 0 {
        Some(log)
    } else {
        match import_result(log, v, recs.drop_last()) {
            None => None,
            Some(l) => match recs.last() {
                None => None,
                Some(rec) => insert_result(l, rec.serage@, v, rec.name@),
            },
        }
    }
}

/// `e` is the error that row `i`, imported after a log that became `prev`,
/// reports.
pub open spec fn row_error(prev: Option<Log>, v: VersionId, row: Option<McpRecord>, i: int, e: Error) -> bool {
    match prev {
        None => false,
        Some(l) => match row {
            None => e == Error::MalformedRecord(i as usize),
            Some(rec) => insert_result(l, rec.serage@, v, rec.name@) is None && insert_error(
                l,
                rec.serage@,
                v,
                rec.name@,
                e,
            ),
        },
    }
}

/// `e` is the error of the first row of `recs` whose import fails.
pub open spec fn import_error(log: Log, v: VersionId, recs: Seq<Option<McpRecord>>, e: Error) -> bool {
    exists|i: int|
        0 <= i < recs.len() && #[trigger] row_error(import_result(log, v, recs.take(i)), v, recs[i], i, e)
}

/// Log and registry after importing `recs` as version `v`; `None` when the
/// version is already known or a row fails.
pub open spec fn import_outcome(log: Log, known: Seq<VersionId>, v: VersionId, recs: Seq<
    Option<McpRecord>,
>) -> Option<(Log, Seq<VersionId>)> {
    if known.contains(v) {
        None
    } else {
        match import_result(log, v, recs) {
            Some(l) => Some((l, with_version(known, v))),
            None => None,
        }
    }
}

/// Importing, for an identifier, the name already in effect as of the new
/// version stores nothing, and the version that set that name keeps answering
/// for every version from it up to the new one.
pub proof fn lemma_dedup(log: Log, rec: McpRecord, v1: VersionId, v2: VersionId, q: VersionId)
    requires
        all_decode(values_for(log, rec.serage@)),
        as_of_entry(values_for(log, rec.serage@), v2) == Some((v1, rec.name@)),
        v1.ordinal() <= q.ordinal() <= v2.ordinal(),
    ensures
        import_result(log, v2, seq![Some(rec)]) == Some(log),
        as_of_entry(values_for(log, rec.serage@), q) == Some((v1, rec.name@)),
{
    let vs = values_for(log, rec.serage@);
    let recs = seq![Some(rec)];
    assert(recs.drop_last() =~= Seq::<Option<McpRecord>>::empty());
    assert(import_result(log, v2, recs.drop_last()) == Some(log));
    assert(recs.last() == Some(rec));
    assert(insert_result(log, rec.serage@, v2, rec.name@) == Some(log));
    let i = choose|i: int| is_as_of_index(vs, v2, i);
    assert forall|j: int| 0 <= j < vs.len() && #[trigger] visible(vs[j], q) implies visible(
        vs[j],
        v2,
    ) by {}
    assert(is_as_of_index(vs, q, i));
    let c = choose|k: int| is_as_of_index(vs, q, k);
    lemma_as_of_index_unique(vs, q, i, c);
}

/// Once a batch has been imported as version `v`, `v` is known and any later
/// import as `v` fails.
pub proof fn lemma_import_idempotent(
    log: Log,
    known: Seq<VersionId>,
    v: VersionId,
    first: Seq<Option<McpRecord>>,
    second: Seq<Option<McpRecord>>,
)
    requires
        sorted_by_ordinal(known),
        import_outcome(log, known, v, first) is Some,
    ensures
        import_outcome(log, known, v, first) matches Some((l, k)) && k.contains(v) && import_outcome(
            l,
            k,
            v,
            second,
        ) is None,
{
    let p = lemma_insertion_point_exists(known, v);
    lemma_with_version(known, v, p);
}

/// Once a prefix of a batch fails, the whole batch fails.
pub proof fn lemma_import_prefix_fails(log: Log, v: VersionId, recs: Seq<Option<McpRecord>>, j: int)
    requires
        0 <= j <= recs.len(),
        import_result(log, v, recs.take(j)) is None,
    ensures
        import_result(log, v, recs) is None,
    decreases recs.len() - j,
{
    if j == recs.len() {
        assert(recs.take(j) =~= recs);
    } else {
        assert(recs.take(j + 1).drop_last() =~= recs.take(j));
        lemma_import_prefix_fails(log, v, recs, j + 1);
    }
}

/// A batch with a malformed row never imports: its import fails as a whole.
pub proof fn lemma_malformed_row_fails_batch(
    log: Log,
    known: Seq<VersionId>,
    v: VersionId,
    recs: Seq<Option<McpRecord>>,
    k: int,
)
    requires
        0 <= k < recs.len(),
        recs[k] is None,
    ensures
        import_outcome(log, known, v, recs) is None,
{
    assert(recs.take(k + 1).drop_last() =~= recs.take(k));
    assert(recs.take(k + 1).last() == recs[k]);
    lemma_import_prefix_fails(log, v, recs, k + 1);
}

/// Byte-wise equality of two records.
fn same_bytes(a: &Vec<u8>, b: &Vec<u8>) -> (r: bool)
    ensures
        r == (a@ == b@),
{
    if a.len() != b.len() {
        return false;
    }
    let mut i: usize = 0;
    while i < a.len()
        invariant
            i <= a@.len(),
            a@.len() == b@.len(),
            forall|j: int| 0 <= j < i ==> a@[j] == b@[j],
        decreases a@.len() - i,
    {
        if a[i] != b[i] {
            return false;
        }
        i = i + 1;
    }
    assert(a@ =~= b@);
    true
}

/// Mapping entries and known versions, held in memory.
pub struct MemStore {
    records: Vec<(String, Vec<u8>)>,
    known: Vec<VersionId>,
}

impl MemStore {
    /// The record log.
    pub closed spec fn log(&self) -> Log {
        self.records@.map_values(|r: (String, Vec<u8>)| (r.0@, r.1@))
    }

    /// The registered versions, in ordinal order.
    pub closed spec fn known(&self) -> Seq<VersionId> {
        self.known@
    }

    /// The registry is kept in ordinal order.
    pub closed spec fn wf(&self) -> bool {
        sorted_by_ordinal(self.known@)
    }

    /// An empty store.
    pub fn new() -> (r: MemStore)
        ensures
            r.wf(),
            r.log() == Seq::<(Seq<char>, Seq<u8>)>::empty(),
            r.known() == Seq::<VersionId>::empty(),
    {
        let r = MemStore { records: Vec::new(), known: Vec::new() };
        assert(r.log() =~= Seq::<(Seq<char>, Seq<u8>)>::empty());
        r
    }

    /// The stored records of `key`, oldest first.
    pub fn values_of(&self, key: &str) -> (r: Vec<Vec<u8>>)
        ensures
            raw_view(r@) == values_for(self.log(), key@),
    {
        let k = key.to_owned();
        let ghost log = self.log();
        let mut out: Vec<Vec<u8>> = Vec::new();
        let mut i: usize = 0;
        while i < self.records.len()
            invariant
                i <= self.records@.len(),
                log == self.log(),
                k@ == key@,
                raw_view(out@) == values_for(log.take(i as int), key@),
            decreases self.records@.len() - i,
        {
            proof {
                assert(log.take(i + 1).drop_last() =~= log.take(i as int));
            }
            if self.records[i].0 == k {
                out.push(slice_to_vec(self.records[i].1.as_slice()));
                assert(raw_view(out@) =~= values_for(log.take(i + 1), key@));
            }
            i = i + 1;
        }
        assert(log.take(i as int) =~= log);
        out
    }

    /// Appends the record `bytes` under `key`.
    fn put(&mut self, key: &str, bytes: Vec<u8>)
        ensures
            final(self).log() == old(self).log().push((key@, bytes@)),
            final(self).known() == old(self).known(),
    {
        self.records.push((key.to_owned(), bytes));
        assert(self.log() =~= old(self).log().push((key@, bytes@)));
    }

    /// Records `name` as `key`'s mapping from `version` on, unless the entry in
    /// effect as of `version` already carries it.
    pub fn insert(&mut self, key: &str, version: VersionId, name: &str) -> (r: Result<(), Error>)
        ensures
            final(self).known() == old(self).known(),
            old(self).wf() ==> final(self).wf(),
            match r {
                Ok(()) => insert_result(old(self).log(), key@, version, name@) == Some(
                    final(self).log(),
                ),
                Err(e) => insert_result(old(self).log(), key@, version, name@) is None
                    && insert_error(old(self).log(), key@, version, name@, e) && final(self).log()
                    == old(self).log(),
            },
    {
        let values = self.values_of(key);
        match plan_insert(key, &values, version, name) {
            Err(e) => Err(e),
            Ok(None) => Ok(()),
            Ok(Some(bytes)) => {
                self.put(key, bytes);
                Ok(())
            },
        }
    }

    /// The name in effect for `srg` as of `version`; `Ok(None)` when no entry
    /// is visible as of it.
    pub fn get_renamed(&self, version: VersionId, srg: &str) -> (r: Result<Option<String>, Error>)
        ensures
            r is Err <==> !all_decode(values_for(self.log(), srg@)),
            match r {
                Err(e) => exists|i: int|
                    first_malformed(values_for(self.log(), srg@), i) && (e matches Error::MalformedEntry {
                        key,
                        bytes,
                    } && key@ == srg@ && bytes@ == values_for(self.log(), srg@)[i]),
                Ok(None) => as_of_entry(values_for(self.log(), srg@), version) is None,
                Ok(Some(s)) => as_of_entry(values_for(self.log(), srg@), version) matches Some(e)
                    && e.1 == s@,
            },
    {
        let values = self.values_of(srg);
        match find_last_entry(srg, &values, version) {
            Err(e) => Err(e),
            Ok(None) => Ok(None),
            Ok(Some(e)) => Ok(Some(e.name)),
        }
    }

    /// Whether `value` has been imported.
    pub fn is_known_version(&self, value: VersionId) -> (r: bool)
        ensures
            r == self.known().contains(value),
    {
        contains_version(&self.known, value)
    }

    /// The imported versions, in ordinal order.
    pub fn list_known_versions(&self) -> (r: Vec<VersionId>)
        requires
            self.wf(),
        ensures
            r@ == self.known(),
            sorted_by_ordinal(r@),
    {
        let mut out: Vec<VersionId> = Vec::new();
        let mut i: usize = 0;
        while i < self.known.len()
            invariant
                i <= self.known@.len(),
                out@ == self.known@.take(i as int),
            decreases self.known@.len() - i,
        {
            out.push(self.known[i]);
            i = i + 1;
            assert(out@ =~= self.known@.take(i as int));
        }
        assert(self.known@.take(i as int) =~= self.known@);
        out
    }

    /// Imports one version's batch in a single all-or-nothing step: fails with
    /// `AlreadyImported` when the version is known, with `MalformedRecord(i)`
    /// when row `i` is malformed, or with the first failing insert's error;
    /// on failure the store is left as it was. On success every row has been
    /// inserted in order and the version registered.
    pub fn import_version(&mut self, version: VersionId, records: &Vec<Option<McpRecord>>) -> (r:
        Result<(), Error>)
        requires
            old(self).wf(),
        ensures
            final(self).wf(),
            match import_outcome(old(self).log(), old(self).known(), version, records@) {
                Some((l, k)) => r is Ok && final(self).log() == l && final(self).known() == k,
                None => r is Err && final(self).log() == old(self).log() && final(self).known()
                    == old(self).known(),
            },
            r is Ok ==> final(self).known().len() == old(self).known().len() + 1,
            r is Ok ==> forall|w: VersionId| #[trigger]
                final(self).known().contains(w) <==> (old(self).known().contains(w) || w
                    == version),
            old(self).known().contains(version) ==> (r matches Err(Error::AlreadyImported(w))
                && w == version),
            !old(self).known().contains(version) ==> (r matches Err(e) ==> import_error(
                old(self).log(),
                version,
                records@,
                e,
            )),
    {
        if contains_version(&self.known, version) {
            return Err(Error::AlreadyImported(version));
        }
        let n0 = self.records.len();
        let ghost log0 = self.log();
        let mut i: usize = 0;
        assert(records@.take(0) =~= Seq::<Option<McpRecord>>::empty());
        assert(log0.take(n0 as int) =~= log0);
        while i < records.len()
            invariant
                i <= records@.len(),
                n0 == log0.len(),
                sorted_by_ordinal(self.known@),
                self.known() == old(self).known(),
                !old(self).known().contains(version),
                log0 == old(self).log(),
                import_result(log0, version, records@.take(i as int)) == Some(self.log()),
                n0 <= self.log().len(),
                self.log().take(n0 as int) == log0,
            decreases records@.len() - i,
        {
            proof {
                assert(records@.take(i + 1).drop_last() =~= records@.take(i as int));
            }
            let failure = match &records[i] {
                None => Some(Error::MalformedRecord(i)),
                Some(rec) => {
                    let ghost before = self.log();
                    match self.insert(rec.serage.as_str(), version, rec.name.as_str()) {
                        Ok(()) => {
                            assert(self.log().take(n0 as int) =~= before.take(n0 as int));
                            None
                        },
                        Err(e) => Some(e),
                    }
                },
            };
            if let Some(e) = failure {
                proof {
                    assert(row_error(
                        import_result(log0, version, records@.take(i as int)),
                        version,
                        records@[i as int],
                        i as int,
                        e,
                    ));
                    lemma_import_prefix_fails(log0, version, records@, i + 1);
                }
                self.records.truncate(n0);
                assert(self.log() =~= log0);
                return Err(e);
            }
            i = i + 1;
        }
        assert(records@.take(i as int) =~= records@);
        proof {
            let p = lemma_insertion_point_exists(self.known@, version);
            lemma_with_version(self.known@, version, p);
        }
        insert_version(&mut self.known, version);
        Ok(())
    }
}

} // verus!
