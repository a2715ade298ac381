//! The name-pool cache: an in-memory mirror of a prefix of an append-only
//! sequence of interned names, extended on demand rather than invalidated.
use vstd::prelude::*;

use crate::error::Error;

verus! {

/// The character views of a list of names.
pub open spec fn names_view(names: Seq<String>) -> Seq<Seq<char>> {
    names.map_values(|s: String| s@)
}

/// `cache` is a prefix of `pool`.
pub open spec fn coherent(cache: Seq<Seq<char>>, pool: Seq<Seq<char>>) -> bool {
    cache.len() <= pool.len() && cache == pool.take(cache.len() as int)
}

/// The cache after a lookup of `index`: untouched when `index` is cached,
/// otherwise refreshed to the whole pool, provided the cache is a prefix of it.
pub open spec fn cache_after(cache: Seq<Seq<char>>, pool: Seq<Seq<char>>, index: int) -> Seq<
    Seq<char>,
> {
    if index < cache.len() || !coherent(cache, pool) {
        cache
    } else {
        pool
    }
}

/// Cached names resolve without a refresh; a request past the cache refreshes
/// once and then every index of the pool resolves without another.
pub proof fn lemma_cache_coherency(cache: Seq<Seq<char>>, pool: Seq<Seq<char>>)
    requires
        coherent(cache, pool),
    ensures
        forall|i: int|
            0 <= i < cache.len() ==> #[trigger] cache_after(cache, pool, i) == cache && cache[i]
                == pool[i],
        cache_after(cache, pool, cache.len() as int) == pool,
        forall|i: int|
            0 <= i < pool.len() ==> #[trigger] cache_after(pool, pool, i) == pool,
{
    assert forall|i: int| 0 <= i < cache.len() implies #[trigger] cache_after(cache, pool, i)
        == cache && cache[i] == pool[i] by {
        assert(cache[i] == pool.take(cache.len() as int)[i]);
    }
}

/// A reader's private mirror of the name pool.
pub struct NameCache {
    names: Vec<String>,
}

impl NameCache {
    /// The cached names.
    pub closed spec fn view_names(&self) -> Seq<Seq<char>> {
        names_view(self.names@)
    }

    /// An empty cache.
    pub fn new() -> (r: NameCache)
        ensures
            r.view_names() == Seq::<Seq<char>>::empty(),
    {
        let r = NameCache { names: Vec::new() };
        assert(r.view_names() =~= Seq::<Seq<char>>::empty());
        r
    }

    /// How many names are cached.
    pub fn len(&self) -> (r: usize)
        ensures
            r == self.view_names().len(),
    {
        self.names.len()
    }

    /// The name at `index` of `pool`, the pool as read now. A cached index is
    /// answered from the cache. Otherwise the cache is tested to be a prefix of
    /// `pool` (`CacheCorruption` if not, the cache kept) and extended to all of
    /// it; an index still out of bounds is an `InvalidNameReference`.
    pub fn resolve(&mut self, pool: &Vec<String>, index: usize) -> (r: Result<String, Error>)
        ensures
            final(self).view_names() == cache_after(
                old(self).view_names(),
                names_view(pool@),
                index as int,
            ),
            index < old(self).view_names().len() ==> (r matches Ok(s) && s@
                == old(self).view_names()[index as int]),
            index >= old(self).view_names().len() && !coherent(
                old(self).view_names(),
                names_view(pool@),
            ) ==> r == Err::<String, Error>(Error::CacheCorruption),
            index >= old(self).view_names().len() && coherent(
                old(self).view_names(),
                names_view(pool@),
            ) ==> if index < pool@.len() {
                r matches Ok(s) && s@ == pool@[index as int]@
            } else {
                r == Err::<String, Error>(Error::InvalidNameReference(index))
            },
    {
        let ghost pv = names_view(pool@);
        let n = self.names.len();
        assert(pv.len() == pool@.len());
        if index < n {
            return Ok(self.names[index].clone());
        }
        if pool.len() < n {
            return Err(Error::CacheCorruption);
        }
        let mut j: usize = 0;
        while j < n
            invariant
                j <= n <= pool@.len(),
                n == self.names@.len(),
                pv == names_view(pool@),
                n == old(self).view_names().len(),
                index >= n,
                forall|k: int| 0 <= k < j ==> (#[trigger] self.names@[k])@ == pool@[k]@,
            decreases n - j,
        {
            if !(self.names[j] == pool[j]) {
                proof {
                    assert(self.view_names()[j as int] != pv.take(n as int)[j as int]);
                }
                return Err(Error::CacheCorruption);
            }
            j = j + 1;
        }
        assert(self.view_names() =~= pv.take(n as int));
        while j < pool.len()
            invariant
                n <= j <= pool@.len(),
                self.view_names() == pv.take(j as int),
                self.names@.len() == j,
                pv == names_view(pool@),
                pv.len() == pool@.len(),
                n == old(self).view_names().len(),
                index >= n,
            decreases pool@.len() - j,
        {
            let name = pool[j].clone();
            assert(name@ == pv[j as int]);
            let ghost before = self.names@;
            self.names.push(name);
            proof {
                assert(names_view(before) == pv.take(j as int));
                assert forall|k: int| 0 <= k <= j implies #[trigger] self.view_names()[k] == pv.take(
                    j + 1,
                )[k] by {
                    if k < j {
                        assert(self.names@[k] == before[k]);
                        assert(names_view(before)[k] == pv.take(j as int)[k]);
                    }
                }
            }
            j = j + 1;
            assert(self.view_names() =~= pv.take(j as int));
        }
        assert(pv.take(j as int) =~= pv);
        if index < self.names.len() {
            assert(pv[index as int] == pool@[index as int]@);
            Ok(self.names[index].clone())
        } else {
            Err(Error::InvalidNameReference(index))
        }
    }
}

} // verus!
