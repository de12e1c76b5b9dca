//! The administrative operations on the cache: statistics, reading one
//! entry, and invalidation by ID, by path, or of everything.

use crate::api::{handled, StepView, NOT_FOUND, OK};
use crate::cache::{
    bare, limits, may_hold, nothing, store_name, Cache, CacheStats, CachedResponse,
    ResponseView,
};
use crate::entry_id::{entry_id_of, parse_entry_id, EntryId};
use crate::index_cache::{
    holds_id, ids_under, lemma_without_id_absent, lemma_without_id_forgets, lookup, no_empty_list,
    other_than, with_entry, without_id, without_path, EntryView, IndexCache, IndexMap, KeyView,
};
use crate::request::RequestView;
use vstd::prelude::*;

verus! {

/// Reports the cache's counters.
pub fn cache_stats(cache: &Cache) -> (r: CacheStats)
    ensures
        r.name@ == store_name(),
{
    cache.stats()
}

/// What one invalidation by ID does, whatever the cache answered: `path` was
/// read as an entry ID and the entry was dropped from a cache that might
/// hold `held` and from the index `index`, which left `held_after` and
/// `index_after`. A path that is no ID changes nothing and gives `404`; an
/// ID gives `200` only if the cache might hold it.
pub open spec fn invalidated(
    index: IndexMap,
    held: Map<u128, ResponseView>,
    path: Seq<u8>,
    status: u16,
    index_after: IndexMap,
    held_after: Map<u128, ResponseView>,
) -> bool {
    match entry_id_of(path) {
        Some(id) => {
            &&& index_after == without_id(index, id)
            &&& held_after == held.remove(id)
            &&& (status == OK || status == NOT_FOUND)
            &&& (status == OK ==> held.contains_key(id))
        },
        None => status == NOT_FOUND && index_after == index && held_after == held,
    }
}

/// Drops the entry `id` from both stores. `known` is what the cache
/// answered when asked whether it holds the entry: the status is `200` if
/// it did, `404` if not.
pub fn forget(cache: &mut Cache, index: &mut IndexCache, id: EntryId, known: bool) -> (status: u16)
    requires
        old(index).wf(),
    ensures
        final(index).wf(),
        status == if known { OK } else { NOT_FOUND },
        final(index)@ == without_id(old(index)@, id),
        may_hold(*final(cache)) == may_hold(*old(cache)).remove(id),
        limits(*final(cache)) == limits(*old(cache)),
{
    cache.invalidate(id);
    index.delete_uuid_from_index(&id);
    if known {
        OK
    } else {
        NOT_FOUND
    }
}

/// Invalidates the entry whose ID the path gives, in the cache and in the
/// index.
pub fn delete_entry_per_uuid(cache: &mut Cache, index: &mut IndexCache, path: &[u8]) -> (status:
    u16)
    requires
        old(index).wf(),
    ensures
        final(index).wf(),
        limits(*final(cache)) == limits(*old(cache)),
        invalidated(
            old(index)@,
            may_hold(*old(cache)),
            path@,
            status,
            final(index)@,
            may_hold(*final(cache)),
        ),
{
    match parse_entry_id(path) {
        Some(id) => {
            let known = cache.contains(id);
            forget(cache, index, id, known)
        },
        None => NOT_FOUND,
    }
}

/// The IDs among the first `n` of `ids`.
spec fn first_ids(ids: Seq<u128>, n: int) -> Set<u128> {
    Set::new(|id: u128| exists|k: int| 0 <= k < n && k < ids.len() && #[trigger] ids[k] == id)
}

/// Invalidates every entry that answers `GET` requests for the path,
/// under whatever host: the keys go from the index and their entries from
/// the cache. The status is `200` if the index knew such an entry, `404` if
/// not.
pub fn delete_entries_per_path(cache: &mut Cache, index: &mut IndexCache, path: &[u8]) -> (status:
    u16)
    requires
        old(index).wf(),
    ensures
        final(index).wf(),
        limits(*final(cache)) == limits(*old(cache)),
        final(index)@ == without_path(old(index)@, path@),
        may_hold(*final(cache)) == may_hold(*old(cache)).remove_keys(
            ids_under(old(index)@, path@),
        ),
        status == if ids_under(old(index)@, path@) == Set::<u128>::empty() {
            NOT_FOUND
        } else {
            OK
        },
{
    let ghost held = may_hold(*cache);
    let ghost gone = ids_under(index@, path@);
    let ids = index.delete_by_path(path);
    let mut i: usize = 0;
    assert(first_ids(ids@, 0) =~= Set::<u128>::empty());
    assert(held.remove_keys(Set::<u128>::empty()) =~= held);
    while i < ids.len()
        invariant
            i <= ids.len(),
            may_hold(*cache) == held.remove_keys(first_ids(ids@, i as int)),
            limits(*cache) == limits(*old(cache)),
        decreases ids.len() - i,
    {
        cache.invalidate(ids[i]);
        proof {
            assert(first_ids(ids@, i + 1) =~= first_ids(ids@, i as int).insert(ids@[i as int]));
            assert(held.remove_keys(first_ids(ids@, i as int)).remove(ids@[i as int])
                =~= held.remove_keys(first_ids(ids@, i + 1)));
        }
        i += 1;
    }
    proof {
        assert forall|id: u128| first_ids(ids@, ids.len() as int).contains(id) <==> gone.contains(
            id,
        ) by {
            if first_ids(ids@, ids.len() as int).contains(id) {
                let k = choose|k: int|
                    0 <= k < ids.len() && k < ids@.len() && #[trigger] ids@[k] == id;
                assert(ids@.contains(id));
            }
            if gone.contains(id) {
                assert(ids@.contains(id));
                let k = choose|k: int| 0 <= k < ids@.len() && ids@[k] == id;
                assert(0 <= k < ids.len() && ids@[k] == id);
            }
        }
        assert(first_ids(ids@, ids.len() as int) =~= gone);
        if ids.len() > 0 {
            assert(ids@.contains(ids@[0]));
            assert(gone.contains(ids@[0]));
        } else {
            assert(gone =~= Set::<u128>::empty());
        }
    }
    if ids.len() > 0 {
        OK
    } else {
        NOT_FOUND
    }
}

/// The reply to a request for one raw entry: the entry where the cache
/// gave one, `404` where it gave none.
pub fn entry_reply(found: Option<CachedResponse>) -> (r: CachedResponse)
    ensures
        match found {
            Some(entry) => r@ == entry@,
            None => r@ == bare(NOT_FOUND),
        },
{
    match found {
        Some(entry) => entry,
        None => CachedResponse::status_only(NOT_FOUND),
    }
}

/// Returns the raw entry whose ID the path gives, or `404`.
pub fn get_cache_entry(cache: &Cache, path: &[u8]) -> (r: CachedResponse)
    ensures
        match entry_id_of(path@) {
            Some(id) => r@ == bare(NOT_FOUND) || (may_hold(*cache).contains_key(id) && r@
                == may_hold(*cache)[id]),
            None => r@ == bare(NOT_FOUND),
        },
{
    match parse_entry_id(path) {
        Some(id) => entry_reply(cache.get(id)),
        None => entry_reply(None),
    }
}

/// Flushes both stores.
pub fn delete_entries(cache: &mut Cache, index: &mut IndexCache) -> (status: u16)
    ensures
        final(index).wf(),
        status == OK,
        final(index)@ == Map::<KeyView, Seq<EntryView>>::empty(),
        may_hold(*final(cache)) == nothing(),
        limits(*final(cache)) == limits(*old(cache)),
{
    cache.invalidate_all();
    index.clear();
    OK
}

/// Invalidation by ID is idempotent: a second invalidation of the same path
/// right after the first gives `404` and changes nothing.
pub proof fn lemma_invalidate_twice(
    index: IndexMap,
    held: Map<u128, ResponseView>,
    path: Seq<u8>,
    first_status: u16,
    index_between: IndexMap,
    held_between: Map<u128, ResponseView>,
    second_status: u16,
    index_after: IndexMap,
    held_after: Map<u128, ResponseView>,
)
    requires
        invalidated(index, held, path, first_status, index_between, held_between),
        invalidated(index_between, held_between, path, second_status, index_after, held_after),
    ensures
        second_status == NOT_FOUND,
        index_after == index_between,
        held_after == held_between,
{
    match entry_id_of(path) {
        Some(id) => {
            lemma_without_id_forgets(index, id);
            assert(no_empty_list(index_between));
            lemma_without_id_absent(index_between, id);
            assert(held_between.remove(id) =~= held_between);
        },
        None => {},
    }
}

/// After a flush the next request misses, whatever it presents, and the
/// index stays empty.
pub proof fn lemma_flushed_misses(request: RequestView, step: StepView, index_after: IndexMap)
    requires
        handled(Map::empty(), nothing(), request, step, index_after),
    ensures
        step is Miss,
        index_after == Map::<KeyView, Seq<EntryView>>::empty(),
{
    assert(lookup(Map::empty(), request) is None);
}

/// A stale index entry does not survive the lookup that finds it: where the
/// index names an entry and the request misses all the same, the index has
/// dropped that entry.
pub proof fn lemma_stale_entry_repaired(
    index: IndexMap,
    held: Map<u128, ResponseView>,
    request: RequestView,
    step: StepView,
    index_after: IndexMap,
    id: u128,
)
    requires
        handled(index, held, request, step, index_after),
        lookup(index, request) == Some(id),
        step is Miss,
    ensures
        index_after == without_id(index, id),
        !holds_id(index_after, id),
{
    lemma_without_id_forgets(index, id);
}

/// The two stores are coherent when every entry that the index names is
/// one that the cache may hold: the index never points to an entry that
/// was not stored, though it may point to one that the cache has evicted
/// since.
pub open spec fn coherent(index: IndexMap, held: Map<u128, ResponseView>) -> bool {
    forall|id: u128| holds_id(index, id) ==> held.contains_key(id)
}

/// Persisting a response keeps the stores coherent.
pub proof fn lemma_persist_keeps_coherent(
    index: IndexMap,
    held: Map<u128, ResponseView>,
    key: KeyView,
    entry: EntryView,
    response: ResponseView,
)
    requires
        coherent(index, held),
    ensures
        coherent(with_entry(index, key, entry), held.insert(entry.id, response)),
{
    let after = with_entry(index, key, entry);
    assert forall|id: u128| holds_id(after, id) implies held.insert(
        entry.id,
        response,
    ).contains_key(id) by {
        let (k, i) = choose|k: KeyView, i: int|
            after.contains_key(k) && 0 <= i < after[k].len() && (#[trigger] after[k][i]).id == id;
        if id != entry.id {
            if k == key {
                assert(index.contains_key(k) && (#[trigger] index[k][i]).id == id);
            } else {
                assert(index.contains_key(k) && (#[trigger] index[k][i]).id == id);
            }
            assert(holds_id(index, id));
        }
    }
}

/// Dropping an entry from the index keeps the stores coherent, whether or
/// not the cache drops it too: a repair and an invalidation both do.
pub proof fn lemma_removal_keeps_coherent(index: IndexMap, held: Map<u128, ResponseView>, id: u128)
    requires
        coherent(index, held),
    ensures
        coherent(without_id(index, id), held),
        coherent(without_id(index, id), held.remove(id)),
{
    let after = without_id(index, id);
    lemma_without_id_forgets(index, id);
    assert forall|other: u128| holds_id(after, other) implies holds_id(index, other) && other
        != id by {
        let (k, i) = choose|k: KeyView, i: int|
            after.contains_key(k) && 0 <= i < after[k].len() && (#[trigger] after[k][i]).id
                == other;
        index[k].lemma_filter_contains_rev(other_than(id), after[k][i]);
        assert(after[k].contains(after[k][i]));
        let j = choose|j: int| 0 <= j < index[k].len() && index[k][j] == after[k][i];
        assert(index.contains_key(k) && (#[trigger] index[k][j]).id == other);
    }
}

/// A run of the pipeline over coherent stores leaves them coherent.
pub proof fn lemma_handled_keeps_coherent(
    index: IndexMap,
    held: Map<u128, ResponseView>,
    request: RequestView,
    step: StepView,
    index_after: IndexMap,
)
    requires
        coherent(index, held),
        handled(index, held, request, step, index_after),
    ensures
        coherent(index_after, held),
{
    if step is Miss {
        match lookup(index, request) {
            Some(id) => {
                lemma_removal_keeps_coherent(index, held, id);
            },
            None => {},
        }
    }
}

/// An invalidation by ID leaves coherent stores coherent.
pub proof fn lemma_invalidated_keeps_coherent(
    index: IndexMap,
    held: Map<u128, ResponseView>,
    path: Seq<u8>,
    status: u16,
    index_after: IndexMap,
    held_after: Map<u128, ResponseView>,
)
    requires
        coherent(index, held),
        invalidated(index, held, path, status, index_after, held_after),
    ensures
        coherent(index_after, held_after),
{
    match entry_id_of(path) {
        Some(id) => {
            lemma_removal_keeps_coherent(index, held, id);
        },
        None => {},
    }
}

} // verus!
